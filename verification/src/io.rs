//! Persistence options: the coding × compression matrix, the canonical index
//! file names, and the compression layer over raw bytes.
//!
//! The byte codecs themselves (JSON and CBOR through serde) live outside the
//! library; this module fixes everything that can be decided on plain values.

use crate::strutil::{chars_of, rfind_char, rfind_char_in, str_eq, sub_string};
use vstd::prelude::*;

verus! {

/// The errors this library reports.
#[derive(Debug, Clone, Copy, PartialEq, Eq, Structural)]
pub enum Error {
    /// A coding name was not recognised.
    UnknownCoding,
    /// A compression name was not recognised.
    UnknownCompress,
    /// A file name determines no data coding.
    UnknownDataFile,
    /// A compressed block failed to decompress.
    Decompress,
}

/// How the source map is encoded.
#[derive(Debug, Clone, Copy, PartialEq, Eq, Structural)]
pub enum DataCoding {
    Json,
    JsonPretty,
    Cbor,
}

impl Default for DataCoding {
    fn default() -> (r: Self)
        ensures
            r == DataCoding::Json,
    {
        DataCoding::Json
    }
}

impl DataCoding {
    /// The coding a name denotes, if any.
    pub open spec fn parse_spec(s: Seq<char>) -> Option<DataCoding> {
        if s == "j"@ || s == "json"@ {
            Some(DataCoding::Json)
        } else if s == "jp"@ || s == "json-pretty"@ {
            Some(DataCoding::JsonPretty)
        } else if s == "c"@ || s == "cbor"@ {
            Some(DataCoding::Cbor)
        } else {
            None
        }
    }

    pub fn parse(s: &str) -> (r: Option<DataCoding>)
        ensures
            r == DataCoding::parse_spec(s@),
    {
        if str_eq(s, "j") || str_eq(s, "json") {
            Some(DataCoding::Json)
        } else if str_eq(s, "jp") || str_eq(s, "json-pretty") {
            Some(DataCoding::JsonPretty)
        } else if str_eq(s, "c") || str_eq(s, "cbor") {
            Some(DataCoding::Cbor)
        } else {
            None
        }
    }

    /// Like `parse`, but reporting an error for unknown names.
    pub fn from_name(s: &str) -> (r: Result<DataCoding, Error>)
        ensures
            match r {
                Ok(c) => DataCoding::parse_spec(s@) == Some(c),
                Err(e) => DataCoding::parse_spec(s@) is None && e == Error::UnknownCoding,
            },
    {
        match DataCoding::parse(s) {
            Some(c) => Ok(c),
            None => Err(Error::UnknownCoding),
        }
    }

    pub open spec fn name_spec(self) -> Seq<char> {
        match self {
            DataCoding::Json => "json"@,
            DataCoding::JsonPretty => "json-pretty"@,
            DataCoding::Cbor => "cbor"@,
        }
    }

    /// The canonical name of this coding.
    pub fn as_name(&self) -> (r: String)
        ensures
            r@ == self.name_spec(),
    {
        match self {
            DataCoding::Json => "json".to_owned(),
            DataCoding::JsonPretty => "json-pretty".to_owned(),
            DataCoding::Cbor => "cbor".to_owned(),
        }
    }
}

/// How the encoded bytes are compressed.
#[derive(Debug, Clone, Copy, PartialEq, Eq, Structural)]
pub enum DataCompress {
    No,
    Lz4,
}

impl Default for DataCompress {
    fn default() -> (r: Self)
        ensures
            r == DataCompress::No,
    {
        DataCompress::No
    }
}

impl DataCompress {
    /// The compression a name denotes, if any.
    pub open spec fn parse_spec(s: Seq<char>) -> Option<DataCompress> {
        if s == "n"@ || s == "no"@ {
            Some(DataCompress::No)
        } else if s == "z"@ || s == "lz4"@ {
            Some(DataCompress::Lz4)
        } else {
            None
        }
    }

    pub fn parse(s: &str) -> (r: Option<DataCompress>)
        ensures
            r == DataCompress::parse_spec(s@),
    {
        if str_eq(s, "n") || str_eq(s, "no") {
            Some(DataCompress::No)
        } else if str_eq(s, "z") || str_eq(s, "lz4") {
            Some(DataCompress::Lz4)
        } else {
            None
        }
    }

    /// Like `parse`, but reporting an error for unknown names.
    pub fn from_name(s: &str) -> (r: Result<DataCompress, Error>)
        ensures
            match r {
                Ok(z) => DataCompress::parse_spec(s@) == Some(z),
                Err(e) => DataCompress::parse_spec(s@) is None && e == Error::UnknownCompress,
            },
    {
        match DataCompress::parse(s) {
            Some(z) => Ok(z),
            None => Err(Error::UnknownCompress),
        }
    }

    pub open spec fn name_spec(self) -> Seq<char> {
        match self {
            DataCompress::No => "no"@,
            DataCompress::Lz4 => "lz4"@,
        }
    }

    /// The canonical name of this compression.
    pub fn as_name(&self) -> (r: String)
        ensures
            r@ == self.name_spec(),
    {
        match self {
            DataCompress::No => "no".to_owned(),
            DataCompress::Lz4 => "lz4".to_owned(),
        }
    }
}

/// A coding and a compression together.
#[derive(Debug, Clone, Copy, PartialEq, Eq, Structural)]
pub struct DataOptions {
    pub coding: DataCoding,
    pub compress: DataCompress,
}

impl Default for DataOptions {
    fn default() -> (r: Self)
        ensures
            r.coding == DataCoding::Json,
            r.compress == DataCompress::No,
    {
        DataOptions { coding: DataCoding::Json, compress: DataCompress::No }
    }
}

/// The index of the last `.` strictly inside `(cstart, hi)`, splitting stem
/// from extension, if one exists.
pub open spec fn last_dot(s: Seq<char>, cstart: int, hi: int) -> Option<int> {
    match rfind_char(s, '.', hi) {
        Some(d) => if d > cstart {
            Some(d)
        } else {
            None
        },
        None => None,
    }
}

/// The options a file name denotes: the last extension fixes the compression
/// (default none) and, failing that, the coding comes from the extension
/// before it.
pub open spec fn opts_from_path(path: Seq<char>) -> Option<DataOptions> {
    let cstart = match rfind_char(path, '/', path.len() as int) {
        Some(sl) => sl + 1,
        None => 0,
    };
    match last_dot(path, cstart, path.len() as int) {
        None => None,
        Some(d1) => {
            let e1 = path.subrange(d1 + 1, path.len() as int);
            let compress = match DataCompress::parse_spec(e1) {
                Some(z) => z,
                None => DataCompress::No,
            };
            let coding1 = DataCoding::parse_spec(e1);
            let coding2 = if coding1 is Some {
                coding1
            } else {
                match last_dot(path, cstart, d1) {
                    None => None,
                    Some(d2) => DataCoding::parse_spec(path.subrange(d2 + 1, d1)),
                }
            };
            match coding2 {
                Some(c) => Some(DataOptions { coding: c, compress }),
                None => None,
            }
        },
    }
}

impl DataOptions {
    /// Pair a coding with a compression.
    pub fn new(coding: DataCoding, compress: DataCompress) -> (r: Self)
        ensures
            r.coding == coding,
            r.compress == compress,
    {
        DataOptions { coding, compress }
    }

    /// Infer the options from an index file's name.
    pub fn from_file(path: &str) -> (r: Result<Self, Error>)
        ensures
            match r {
                Ok(o) => opts_from_path(path@) == Some(o),
                Err(e) => opts_from_path(path@) is None && e == Error::UnknownDataFile,
            },
    {
        let cs = chars_of(path);
        let n = cs.len();
        let cstart = match rfind_char_in(&cs, '/', n) {
            Some(sl) => sl + 1,
            None => 0,
        };
        let d1 = match rfind_char_in(&cs, '.', n) {
            Some(d) => {
                if d > cstart {
                    d
                } else {
                    return Err(Error::UnknownDataFile);
                }
            },
            None => {
                return Err(Error::UnknownDataFile);
            },
        };
        let e1 = sub_string(path, d1 + 1, n);
        let compress = match DataCompress::parse(e1.as_str()) {
            Some(z) => z,
            None => DataCompress::No,
        };
        let coding1 = DataCoding::parse(e1.as_str());
        let coding2 = match coding1 {
            Some(c) => Some(c),
            None => {
                match rfind_char_in(&cs, '.', d1) {
                    Some(d2) => {
                        if d2 > cstart {
                            let e2 = sub_string(path, d2 + 1, d1);
                            DataCoding::parse(e2.as_str())
                        } else {
                            None
                        }
                    },
                    None => None,
                }
            },
        };
        match coding2 {
            Some(c) => Ok(DataOptions { coding: c, compress }),
            None => Err(Error::UnknownDataFile),
        }
    }

    pub open spec fn file_name_spec(self) -> Seq<char> {
        match (self.coding, self.compress) {
            (DataCoding::Json, DataCompress::No) => "kquery.json"@,
            (DataCoding::JsonPretty, DataCompress::No) => "kquery.json-pretty"@,
            (DataCoding::Cbor, DataCompress::No) => "kquery.cbor"@,
            (DataCoding::Json, DataCompress::Lz4) => "kquery.json.lz4"@,
            (DataCoding::JsonPretty, DataCompress::Lz4) => "kquery.json-pretty.lz4"@,
            (DataCoding::Cbor, DataCompress::Lz4) => "kquery.cbor.lz4"@,
        }
    }

    /// The canonical index file name these options produce.
    pub fn file_name(&self) -> (r: String)
        ensures
            r@ == self.file_name_spec(),
    {
        match (self.coding, self.compress) {
            (DataCoding::Json, DataCompress::No) => "kquery.json".to_owned(),
            (DataCoding::JsonPretty, DataCompress::No) => "kquery.json-pretty".to_owned(),
            (DataCoding::Cbor, DataCompress::No) => "kquery.cbor".to_owned(),
            (DataCoding::Json, DataCompress::Lz4) => "kquery.json.lz4".to_owned(),
            (DataCoding::JsonPretty, DataCompress::Lz4) => "kquery.json-pretty.lz4".to_owned(),
            (DataCoding::Cbor, DataCompress::Lz4) => "kquery.cbor.lz4".to_owned(),
        }
    }

    /// Every canonical index file name, in discovery order.
    pub fn file_names() -> (r: Vec<String>)
        ensures
            crate::metadata::strs_seq(r@) == seq![
                "kquery.json"@,
                "kquery.json-pretty"@,
                "kquery.cbor"@,
                "kquery.json.lz4"@,
                "kquery.json-pretty.lz4"@,
                "kquery.cbor.lz4"@,
            ],
    {
        let mut r: Vec<String> = Vec::new();
        r.push("kquery.json".to_owned());
        r.push("kquery.json-pretty".to_owned());
        r.push("kquery.cbor".to_owned());
        r.push("kquery.json.lz4".to_owned());
        r.push("kquery.json-pretty.lz4".to_owned());
        r.push("kquery.cbor.lz4".to_owned());
        proof {
            assert(crate::metadata::strs_seq(r@) =~= seq![
                "kquery.json"@,
                "kquery.json-pretty"@,
                "kquery.cbor"@,
                "kquery.json.lz4"@,
                "kquery.json-pretty.lz4"@,
                "kquery.cbor.lz4"@,
            ]);
        }
        r
    }
}

/// Among candidate modification times, the first index holding the strictly
/// greatest present time, if any time is present at all.
pub fn newest_index(mtimes: &Vec<Option<u64>>) -> (r: Option<usize>)
    ensures
        match r {
            Some(i) => i < mtimes@.len() && mtimes@[i as int] is Some && (forall|j: int|
                0 <= j < mtimes@.len() && mtimes@[j] is Some ==> mtimes@[j]->0
                    <= mtimes@[i as int]->0) && (forall|j: int|
                0 <= j < i ==> !(mtimes@[j] is Some && mtimes@[j]->0 == mtimes@[i as int]->0)),
            None => forall|j: int| 0 <= j < mtimes@.len() ==> mtimes@[j] is None,
        },
{
    let n = mtimes.len();
    let mut best: Option<usize> = None;
    let mut k: usize = 0;
    while k < n
        invariant
            n == mtimes@.len(),
            k <= n,
            match best {
                Some(i) => i < k && mtimes@[i as int] is Some && (forall|j: int|
                    0 <= j < k && mtimes@[j] is Some ==> mtimes@[j]->0
                        <= mtimes@[i as int]->0) && (forall|j: int|
                    0 <= j < i ==> !(mtimes@[j] is Some && mtimes@[j]->0
                        == mtimes@[i as int]->0)),
                None => forall|j: int| 0 <= j < k ==> mtimes@[j] is None,
            },
        decreases n - k,
    {
        match mtimes[k] {
            Some(t) => {
                let replace = match best {
                    Some(i) => {
                        match mtimes[i] {
                            Some(bt) => bt < t,
                            None => true,
                        }
                    },
                    None => true,
                };
                if replace {
                    best = Some(k);
                }
            },
            None => {},
        }
        k = k + 1;
    }
    best
}

/// The LZ4 block stream (with its prepended size) for given bytes; it
/// depends on the bytes alone.
pub uninterp spec fn lz4_block_of(data: Seq<u8>) -> Seq<u8>;

/// Relies on lz4_flex::compress_prepend_size: compresses the bytes into a
/// block stream with the uncompressed size prepended little-endian.
#[verifier::external_body]
fn lz4_compress(data: &Vec<u8>) -> (r: Vec<u8>)
    requires
        data@.len() <= 0xffff_ffff,
    ensures
        r@ == lz4_block_of(data@),
{
    lz4_flex::compress_prepend_size(data.as_slice())
}

#[verifier::external_type_specification]
#[verifier::external_body]
pub struct ExDecompressError(lz4_flex::block::DecompressError);

/// Relies on lz4_flex::decompress_size_prepended: it inverts
/// compress_prepend_size, as the crate's block-format documentation states.
#[verifier::external_body]
fn lz4_decompress(data: &Vec<u8>) -> (r: Result<Vec<u8>, lz4_flex::block::DecompressError>)
    ensures
        match r {
            Ok(out) => forall|d: Seq<u8>|
                d.len() <= 0xffff_ffff && data@ == #[trigger] lz4_block_of(d) ==> out@ == d,
            Err(_) => forall|d: Seq<u8>|
                d.len() <= 0xffff_ffff ==> data@ != #[trigger] lz4_block_of(d),
        },
{
    lz4_flex::decompress_size_prepended(data.as_slice())
}

/// The bytes written for `data` under compression `z`.
pub open spec fn compressed_spec(z: DataCompress, data: Seq<u8>) -> Seq<u8> {
    match z {
        DataCompress::No => data,
        DataCompress::Lz4 => lz4_block_of(data),
    }
}

/// Apply the chosen compression to encoded bytes.
pub fn compress_data(data: Vec<u8>, z: DataCompress) -> (r: Vec<u8>)
    requires
        data@.len() <= 0xffff_ffff,
    ensures
        r@ == compressed_spec(z, data@),
{
    match z {
        DataCompress::No => data,
        DataCompress::Lz4 => lz4_compress(&data),
    }
}

/// Undo the chosen compression. Whatever came back, bytes that were produced
/// by `compress_data` under the same compression come back unchanged.
pub fn decompress_data(data: Vec<u8>, z: DataCompress) -> (r: Result<Vec<u8>, Error>)
    ensures
        z == DataCompress::No ==> (r matches Ok(out) && out@ == data@),
        forall|d: Seq<u8>|
            d.len() <= 0xffff_ffff && data@ == #[trigger] compressed_spec(z, d) ==> (r matches Ok(
                out,
            ) && out@ == d),
        r is Err ==> z == DataCompress::Lz4 && r == Result::<Vec<u8>, Error>::Err(
            Error::Decompress,
        ),
{
    match z {
        DataCompress::No => Ok(data),
        DataCompress::Lz4 => {
            match lz4_decompress(&data) {
                Ok(v) => Ok(v),
                Err(_) => Err(Error::Decompress),
            }
        },
    }
}

} // verus!
