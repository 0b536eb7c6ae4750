//! The C source scanner: a token-driven state machine that extracts
//! `.compatible = "…"` strings, `MODULE_*(…)` annotations and
//! `module_param*(…)` declarations.
//!
//! Lexing is done by the `clex` crate behind one trusted wrapper; everything
//! that interprets the tokens is verified against the machine below.

use crate::metadata::{
    clone_string, ModuleData, ModuleDataV, ParamData, ParamDataV, SourceData, SourceDataV, StrSet,
};
use crate::strutil::{chars_of, str_eq, sub_string};
use vstd::prelude::*;

verus! {

/// The kinds of C tokens the scanner distinguishes.
#[derive(Debug, Clone, Copy, PartialEq, Eq, Structural)]
pub enum TokKind {
    Ident,
    Int,
    Str,
    Sym,
    Comment,
    Other,
}

/// One C token: its kind, raw lexeme, and decoded values where they apply.
#[derive(Debug)]
pub struct Tok {
    pub kind: TokKind,
    pub slice: String,
    pub sval: Option<String>,
    pub ival: Option<u16>,
}

pub ghost struct TokV {
    pub kind: TokKind,
    pub slice: Seq<char>,
    pub sval: Option<Seq<char>>,
    pub ival: Option<u16>,
}

impl View for Tok {
    type V = TokV;

    open spec fn view(&self) -> TokV {
        TokV {
            kind: self.kind,
            slice: self.slice@,
            sval: match self.sval {
                Some(ref s) => Some(s@),
                None => None,
            },
            ival: self.ival,
        }
    }
}

pub open spec fn toks_seq(v: Seq<Tok>) -> Seq<TokV> {
    v.map_values(|t: Tok| t@)
}

/// The token stream that lexing a C text yields; it depends on the text
/// alone.
pub uninterp spec fn c_tokens_of(src: Seq<char>) -> Seq<TokV>;

/// Relies on clex::Lexer with Lexeme::string and Lexeme::int: lexes the text
/// into tokens with decoded string and integer values, never failing.
#[verifier::external_body]
fn lex_source(src: &str) -> (r: Vec<Tok>)
    ensures
        toks_seq(r@) == c_tokens_of(src@),
{
    let mut r = Vec::new();
    for l in clex::Lexer::from(src) {
        let kind = match l.token {
            clex::Token::Identifier => TokKind::Ident,
            clex::Token::Int => TokKind::Int,
            clex::Token::String => TokKind::Str,
            clex::Token::Symbol => TokKind::Sym,
            clex::Token::Comment => TokKind::Comment,
            _ => TokKind::Other,
        };
        r.push(Tok { kind, slice: l.slice.to_string(), sval: l.string(), ival: l.int() });
    }
    r
}

/// Which `MODULE_*` string annotation is being read.
#[derive(Debug, Clone, Copy, PartialEq, Eq, Structural)]
pub enum ModStrKind {
    Description,
    Author,
    License,
    Alias,
}

/// The scanner's state between tokens.
#[derive(Debug)]
pub enum ScanSt {
    Top,
    Dot,
    DotCompat,
    DotCompatEq,
    ModStr { which: ModStrKind },
    ModStrP { which: ModStrKind },
    ModStrPS { which: ModStrKind, s: String },
    ParmDesc,
    ParmDescP,
    ParmDescPN { name: String },
    ParmDescPNC { name: String },
    ParmDescPNCS { name: String, s: String },
    Par { named: bool },
    ParP { named: bool },
    ParPN { named: bool, name: String },
    ParPNC { named: bool, name: String },
    ParPNCV { name: String },
    ParPNCVC { name: String },
    ParPNCT { name: String, ty: String },
    ParPNCTC { name: String, ty: String },
    ParPNCTP { name: String, ty: String, perm: u16 },
}

pub ghost enum ScanStV {
    Top,
    Dot,
    DotCompat,
    DotCompatEq,
    ModStr { which: ModStrKind },
    ModStrP { which: ModStrKind },
    ModStrPS { which: ModStrKind, s: Seq<char> },
    ParmDesc,
    ParmDescP,
    ParmDescPN { name: Seq<char> },
    ParmDescPNC { name: Seq<char> },
    ParmDescPNCS { name: Seq<char>, s: Seq<char> },
    Par { named: bool },
    ParP { named: bool },
    ParPN { named: bool, name: Seq<char> },
    ParPNC { named: bool, name: Seq<char> },
    ParPNCV { name: Seq<char> },
    ParPNCVC { name: Seq<char> },
    ParPNCT { name: Seq<char>, ty: Seq<char> },
    ParPNCTC { name: Seq<char>, ty: Seq<char> },
    ParPNCTP { name: Seq<char>, ty: Seq<char>, perm: u16 },
}

impl View for ScanSt {
    type V = ScanStV;

    open spec fn view(&self) -> ScanStV {
        match self {
            ScanSt::Top => ScanStV::Top,
            ScanSt::Dot => ScanStV::Dot,
            ScanSt::DotCompat => ScanStV::DotCompat,
            ScanSt::DotCompatEq => ScanStV::DotCompatEq,
            ScanSt::ModStr { which } => ScanStV::ModStr { which: *which },
            ScanSt::ModStrP { which } => ScanStV::ModStrP { which: *which },
            ScanSt::ModStrPS { which, s } => ScanStV::ModStrPS { which: *which, s: s@ },
            ScanSt::ParmDesc => ScanStV::ParmDesc,
            ScanSt::ParmDescP => ScanStV::ParmDescP,
            ScanSt::ParmDescPN { name } => ScanStV::ParmDescPN { name: name@ },
            ScanSt::ParmDescPNC { name } => ScanStV::ParmDescPNC { name: name@ },
            ScanSt::ParmDescPNCS { name, s } => ScanStV::ParmDescPNCS { name: name@, s: s@ },
            ScanSt::Par { named } => ScanStV::Par { named: *named },
            ScanSt::ParP { named } => ScanStV::ParP { named: *named },
            ScanSt::ParPN { named, name } => ScanStV::ParPN { named: *named, name: name@ },
            ScanSt::ParPNC { named, name } => ScanStV::ParPNC { named: *named, name: name@ },
            ScanSt::ParPNCV { name } => ScanStV::ParPNCV { name: name@ },
            ScanSt::ParPNCVC { name } => ScanStV::ParPNCVC { name: name@ },
            ScanSt::ParPNCT { name, ty } => ScanStV::ParPNCT { name: name@, ty: ty@ },
            ScanSt::ParPNCTC { name, ty } => ScanStV::ParPNCTC { name: name@, ty: ty@ },
            ScanSt::ParPNCTP { name, ty, perm } => ScanStV::ParPNCTP {
                name: name@,
                ty: ty@,
                perm: *perm,
            },
        }
    }
}

/// What the scanner has gathered so far.
pub ghost struct ScanAccV {
    pub compat_strs: Set<Seq<char>>,
    pub module: ModuleDataV,
}

/// The POSIX permission bits an `S_I<suffix>` identifier stands for; any
/// other identifier counts as zero.
pub open spec fn mode_of(id: Seq<char>) -> u16 {
    if id.len() >= 3 && id[0] == 'S' && id[1] == '_' && id[2] == 'I' {
        let sfx = id.subrange(3, id.len() as int);
        if sfx == "FMT"@ {
            0o170000
        } else if sfx == "FSOCK"@ {
            0o140000
        } else if sfx == "FLNK"@ {
            0o120000
        } else if sfx == "FREG"@ {
            0o100000
        } else if sfx == "FBLK"@ {
            0o060000
        } else if sfx == "FDIR"@ {
            0o040000
        } else if sfx == "FCHR"@ {
            0o020000
        } else if sfx == "FIFO"@ {
            0o010000
        } else if sfx == "SUID"@ {
            0o004000
        } else if sfx == "SGID"@ {
            0o002000
        } else if sfx == "SVTX"@ {
            0o001000
        } else if sfx == "RWXU"@ {
            0o0700
        } else if sfx == "RUSR"@ {
            0o0400
        } else if sfx == "WUSR"@ {
            0o0200
        } else if sfx == "XUSR"@ {
            0o0100
        } else if sfx == "RWXG"@ {
            0o0070
        } else if sfx == "RGRP"@ {
            0o0040
        } else if sfx == "WGRP"@ {
            0o0020
        } else if sfx == "XGRP"@ {
            0o0010
        } else if sfx == "RWXO"@ {
            0o0007
        } else if sfx == "ROTH"@ {
            0o0004
        } else if sfx == "WOTH"@ {
            0o0002
        } else if sfx == "XOTH"@ {
            0o0001
        } else if sfx == "RWXUGO"@ {
            0o0777
        } else if sfx == "ALLUGO"@ {
            0o007777
        } else if sfx == "RUGO"@ {
            0o0444
        } else if sfx == "WUGO"@ {
            0o0222
        } else if sfx == "XUGO"@ {
            0o0111
        } else {
            0
        }
    } else {
        0
    }
}

/// One transition of the scanner: comments pass through, any mismatch falls
/// back to the top level with the token consumed.
pub open spec fn scan_step(st: ScanStV, t: TokV, acc: ScanAccV) -> (ScanStV, ScanAccV) {
    if t.kind == TokKind::Comment {
        (st, acc)
    } else {
        match st {
            ScanStV::Top => {
                if t.kind == TokKind::Sym && t.slice == "."@ {
                    (ScanStV::Dot, acc)
                } else if t.kind == TokKind::Ident {
                    if t.slice == "MODULE_DESCRIPTION"@ {
                        (ScanStV::ModStr { which: ModStrKind::Description }, acc)
                    } else if t.slice == "MODULE_LICENSE"@ {
                        (ScanStV::ModStr { which: ModStrKind::License }, acc)
                    } else if t.slice == "MODULE_AUTHOR"@ {
                        (ScanStV::ModStr { which: ModStrKind::Author }, acc)
                    } else if t.slice == "MODULE_ALIAS"@ {
                        (ScanStV::ModStr { which: ModStrKind::Alias }, acc)
                    } else if t.slice == "MODULE_PARM_DESC"@ {
                        (ScanStV::ParmDesc, acc)
                    } else if t.slice == "module_param"@ {
                        (ScanStV::Par { named: false }, acc)
                    } else if t.slice == "module_param_unsafe"@ {
                        (ScanStV::Par { named: false }, acc)
                    } else if t.slice == "module_param_named"@ {
                        (ScanStV::Par { named: true }, acc)
                    } else if t.slice == "module_param_named_unsafe"@ {
                        (ScanStV::Par { named: true }, acc)
                    } else {
                        (ScanStV::Top, acc)
                    }
                } else {
                    (ScanStV::Top, acc)
                }
            },
            ScanStV::Dot => {
                if t.kind == TokKind::Ident && t.slice == "compatible"@ {
                    (ScanStV::DotCompat, acc)
                } else {
                    (ScanStV::Top, acc)
                }
            },
            ScanStV::DotCompat => {
                if t.kind == TokKind::Sym && t.slice == "="@ {
                    (ScanStV::DotCompatEq, acc)
                } else {
                    (ScanStV::Top, acc)
                }
            },
            ScanStV::DotCompatEq => {
                if t.kind == TokKind::Str && t.sval is Some {
                    (
                        ScanStV::Top,
                        ScanAccV {
                            compat_strs: acc.compat_strs.insert(t.sval->0),
                            module: acc.module,
                        },
                    )
                } else {
                    (ScanStV::Top, acc)
                }
            },
            ScanStV::ModStr { which } => {
                if t.kind == TokKind::Sym && t.slice == "("@ {
                    (ScanStV::ModStrP { which }, acc)
                } else {
                    (ScanStV::Top, acc)
                }
            },
            ScanStV::ModStrP { which } => {
                if t.kind == TokKind::Str && t.sval is Some {
                    (ScanStV::ModStrPS { which, s: t.sval->0 }, acc)
                } else {
                    (ScanStV::Top, acc)
                }
            },
            ScanStV::ModStrPS { which, s } => {
                if t.kind == TokKind::Sym && t.slice == ")"@ {
                    let m = acc.module;
                    let m2 = match which {
                        ModStrKind::Description => ModuleDataV { description: s, ..m },
                        ModStrKind::License => ModuleDataV { license: s, ..m },
                        ModStrKind::Author => ModuleDataV { authors: m.authors.push(s), ..m },
                        ModStrKind::Alias => ModuleDataV { aliases: m.aliases.push(s), ..m },
                    };
                    (ScanStV::Top, ScanAccV { compat_strs: acc.compat_strs, module: m2 })
                } else {
                    (ScanStV::Top, acc)
                }
            },
            ScanStV::ParmDesc => {
                if t.kind == TokKind::Sym && t.slice == "("@ {
                    (ScanStV::ParmDescP, acc)
                } else {
                    (ScanStV::Top, acc)
                }
            },
            ScanStV::ParmDescP => {
                if t.kind == TokKind::Ident {
                    (ScanStV::ParmDescPN { name: t.slice }, acc)
                } else {
                    (ScanStV::Top, acc)
                }
            },
            ScanStV::ParmDescPN { name } => {
                if t.kind == TokKind::Sym && t.slice == ","@ {
                    (ScanStV::ParmDescPNC { name }, acc)
                } else {
                    (ScanStV::Top, acc)
                }
            },
            ScanStV::ParmDescPNC { name } => {
                if t.kind == TokKind::Str && t.sval is Some {
                    (ScanStV::ParmDescPNCS { name, s: t.sval->0 }, acc)
                } else {
                    (ScanStV::Top, acc)
                }
            },
            ScanStV::ParmDescPNCS { name, s } => {
                if t.kind == TokKind::Sym && t.slice == ")"@ {
                    let base = if acc.module.params.contains_key(name) {
                        acc.module.params[name]
                    } else {
                        ParamData::default_v()
                    };
                    let m2 = ModuleDataV {
                        params: acc.module.params.insert(
                            name,
                            ParamDataV { description: s, ..base },
                        ),
                        ..acc.module
                    };
                    (ScanStV::Top, ScanAccV { compat_strs: acc.compat_strs, module: m2 })
                } else {
                    (ScanStV::Top, acc)
                }
            },
            ScanStV::Par { named } => {
                if t.kind == TokKind::Sym && t.slice == "("@ {
                    (ScanStV::ParP { named }, acc)
                } else {
                    (ScanStV::Top, acc)
                }
            },
            ScanStV::ParP { named } => {
                if t.kind == TokKind::Ident {
                    (ScanStV::ParPN { named, name: t.slice }, acc)
                } else {
                    (ScanStV::Top, acc)
                }
            },
            ScanStV::ParPN { named, name } => {
                if t.kind == TokKind::Sym && t.slice == ","@ {
                    (ScanStV::ParPNC { named, name }, acc)
                } else {
                    (ScanStV::Top, acc)
                }
            },
            ScanStV::ParPNC { named, name } => {
                if t.kind == TokKind::Ident {
                    if named {
                        (ScanStV::ParPNCV { name }, acc)
                    } else {
                        (ScanStV::ParPNCT { name, ty: t.slice }, acc)
                    }
                } else {
                    (ScanStV::Top, acc)
                }
            },
            ScanStV::ParPNCV { name } => {
                if t.kind == TokKind::Sym && t.slice == ","@ {
                    (ScanStV::ParPNCVC { name }, acc)
                } else {
                    (ScanStV::Top, acc)
                }
            },
            ScanStV::ParPNCVC { name } => {
                if t.kind == TokKind::Ident {
                    (ScanStV::ParPNCT { name, ty: t.slice }, acc)
                } else {
                    (ScanStV::Top, acc)
                }
            },
            ScanStV::ParPNCT { name, ty } => {
                if t.kind == TokKind::Sym && t.slice == ","@ {
                    (ScanStV::ParPNCTC { name, ty }, acc)
                } else if t.kind == TokKind::Ident {
                    (ScanStV::ParPNCT { name, ty: ty + " "@ + t.slice }, acc)
                } else {
                    (ScanStV::Top, acc)
                }
            },
            ScanStV::ParPNCTC { name, ty } => {
                if t.kind == TokKind::Ident {
                    (ScanStV::ParPNCTP { name, ty, perm: mode_of(t.slice) }, acc)
                } else if t.kind == TokKind::Int && t.ival is Some {
                    (ScanStV::ParPNCTP { name, ty, perm: t.ival->0 }, acc)
                } else {
                    (ScanStV::Top, acc)
                }
            },
            ScanStV::ParPNCTP { name, ty, perm } => {
                if t.kind == TokKind::Sym && t.slice == "|"@ {
                    (ScanStV::ParPNCTP { name, ty, perm }, acc)
                } else if t.kind == TokKind::Sym && t.slice == ")"@ {
                    let base = if acc.module.params.contains_key(name) {
                        acc.module.params[name]
                    } else {
                        ParamData::default_v()
                    };
                    let m2 = ModuleDataV {
                        params: acc.module.params.insert(
                            name,
                            ParamDataV { type_: ty, perm, description: base.description },
                        ),
                        ..acc.module
                    };
                    (ScanStV::Top, ScanAccV { compat_strs: acc.compat_strs, module: m2 })
                } else if t.kind == TokKind::Ident {
                    (ScanStV::ParPNCTP { name, ty, perm: perm | mode_of(t.slice) }, acc)
                } else if t.kind == TokKind::Int && t.ival is Some {
                    (ScanStV::ParPNCTP { name, ty, perm: perm | t.ival->0 }, acc)
                } else {
                    (ScanStV::Top, acc)
                }
            },
        }
    }
}

/// The accumulator after running the machine over `toks[i..]`.
pub open spec fn scan_run(st: ScanStV, acc: ScanAccV, toks: Seq<TokV>, i: int) -> ScanAccV
    decreases toks.len() - i,
{
    if !(0 <= i < toks.len()) {
        acc
    } else {
        let next = scan_step(st, toks[i], acc);
        scan_run(next.0, next.1, toks, i + 1)
    }
}

pub open spec fn scan_acc_init() -> ScanAccV {
    ScanAccV { compat_strs: Set::empty(), module: ModuleData::default_v() }
}

/// The record a token stream yields: its compat strings and, when any
/// annotation fired, its module data.
pub open spec fn scan_tokens_spec(ts: Seq<TokV>) -> SourceDataV {
    let acc = scan_run(ScanStV::Top, scan_acc_init(), ts, 0);
    SourceDataV {
        config_opts: Set::empty(),
        compat_strs: acc.compat_strs,
        module: if acc.module == ModuleData::default_v() {
            None
        } else {
            Some(acc.module)
        },
    }
}

/// The record scanning a C text yields.
pub open spec fn scan_source_spec(src: Seq<char>) -> SourceDataV {
    scan_tokens_spec(c_tokens_of(src))
}

/// The permission bits an identifier token contributes.
pub fn mode_from_id(id: &str) -> (r: u16)
    ensures
        r == mode_of(id@),
{
    let cs = chars_of(id);
    let n = cs.len();
    if !(n >= 3 && cs[0] == 'S' && cs[1] == '_' && cs[2] == 'I') {
        return 0;
    }
    let sfx = sub_string(id, 3, n);
    let s = sfx.as_str();
    if str_eq(s, "FMT") {
        0o170000
    } else if str_eq(s, "FSOCK") {
        0o140000
    } else if str_eq(s, "FLNK") {
        0o120000
    } else if str_eq(s, "FREG") {
        0o100000
    } else if str_eq(s, "FBLK") {
        0o060000
    } else if str_eq(s, "FDIR") {
        0o040000
    } else if str_eq(s, "FCHR") {
        0o020000
    } else if str_eq(s, "FIFO") {
        0o010000
    } else if str_eq(s, "SUID") {
        0o004000
    } else if str_eq(s, "SGID") {
        0o002000
    } else if str_eq(s, "SVTX") {
        0o001000
    } else if str_eq(s, "RWXU") {
        0o0700
    } else if str_eq(s, "RUSR") {
        0o0400
    } else if str_eq(s, "WUSR") {
        0o0200
    } else if str_eq(s, "XUSR") {
        0o0100
    } else if str_eq(s, "RWXG") {
        0o0070
    } else if str_eq(s, "RGRP") {
        0o0040
    } else if str_eq(s, "WGRP") {
        0o0020
    } else if str_eq(s, "XGRP") {
        0o0010
    } else if str_eq(s, "RWXO") {
        0o0007
    } else if str_eq(s, "ROTH") {
        0o0004
    } else if str_eq(s, "WOTH") {
        0o0002
    } else if str_eq(s, "XOTH") {
        0o0001
    } else if str_eq(s, "RWXUGO") {
        0o0777
    } else if str_eq(s, "ALLUGO") {
        0o007777
    } else if str_eq(s, "RUGO") {
        0o0444
    } else if str_eq(s, "WUGO") {
        0o0222
    } else if str_eq(s, "XUGO") {
        0o0111
    } else {
        0
    }
}

impl SourceData {
    /// Run the scanner over an already-lexed token stream.
    #[verifier::rlimit(100)]
    pub fn from_tokens(toks: &Vec<Tok>) -> (r: SourceData)
        ensures
            r.wf(),
            r@ == scan_tokens_spec(toks_seq(toks@)),
    {
        let ghost ts = toks_seq(toks@);
        let mut st = ScanSt::Top;
        let mut compat = StrSet::new();
        let mut module = ModuleData::default();
        let n = toks.len();
        let mut i: usize = 0;
        while i < n
            invariant
                ts == toks_seq(toks@),
                n == toks@.len(),
                i <= n,
                compat.wf(),
                module.wf(),
                scan_run(ScanStV::Top, scan_acc_init(), ts, 0) == scan_run(
                    st@,
                    ScanAccV { compat_strs: compat@, module: module@ },
                    ts,
                    i as int,
                ),
            decreases n - i,
        {
            let ghost prev_st = st@;
            let ghost prev_acc = ScanAccV { compat_strs: compat@, module: module@ };
            let t = &toks[i];
            proof {
                assert(ts[i as int] == t@);
            }
            if t.kind == TokKind::Comment {
            } else {
                st = match st {
                    ScanSt::Top => {
                        if t.kind == TokKind::Sym && str_eq(t.slice.as_str(), ".") {
                            ScanSt::Dot
                        } else if t.kind == TokKind::Ident {
                            let sl = t.slice.as_str();
                            if str_eq(sl, "MODULE_DESCRIPTION") {
                                ScanSt::ModStr { which: ModStrKind::Description }
                            } else if str_eq(sl, "MODULE_LICENSE") {
                                ScanSt::ModStr { which: ModStrKind::License }
                            } else if str_eq(sl, "MODULE_AUTHOR") {
                                ScanSt::ModStr { which: ModStrKind::Author }
                            } else if str_eq(sl, "MODULE_ALIAS") {
                                ScanSt::ModStr { which: ModStrKind::Alias }
                            } else if str_eq(sl, "MODULE_PARM_DESC") {
                                ScanSt::ParmDesc
                            } else if str_eq(sl, "module_param") {
                                ScanSt::Par { named: false }
                            } else if str_eq(sl, "module_param_unsafe") {
                                ScanSt::Par { named: false }
                            } else if str_eq(sl, "module_param_named") {
                                ScanSt::Par { named: true }
                            } else if str_eq(sl, "module_param_named_unsafe") {
                                ScanSt::Par { named: true }
                            } else {
                                ScanSt::Top
                            }
                        } else {
                            ScanSt::Top
                        }
                    },
                    ScanSt::Dot => {
                        if t.kind == TokKind::Ident && str_eq(t.slice.as_str(), "compatible") {
                            ScanSt::DotCompat
                        } else {
                            ScanSt::Top
                        }
                    },
                    ScanSt::DotCompat => {
                        if t.kind == TokKind::Sym && str_eq(t.slice.as_str(), "=") {
                            ScanSt::DotCompatEq
                        } else {
                            ScanSt::Top
                        }
                    },
                    ScanSt::DotCompatEq => {
                        if t.kind == TokKind::Str {
                            match &t.sval {
                                Some(sv) => {
                                    compat.insert(clone_string(sv));
                                    ScanSt::Top
                                },
                                None => ScanSt::Top,
                            }
                        } else {
                            ScanSt::Top
                        }
                    },
                    ScanSt::ModStr { which } => {
                        if t.kind == TokKind::Sym && str_eq(t.slice.as_str(), "(") {
                            ScanSt::ModStrP { which }
                        } else {
                            ScanSt::Top
                        }
                    },
                    ScanSt::ModStrP { which } => {
                        if t.kind == TokKind::Str {
                            match &t.sval {
                                Some(sv) => ScanSt::ModStrPS { which, s: clone_string(sv) },
                                None => ScanSt::Top,
                            }
                        } else {
                            ScanSt::Top
                        }
                    },
                    ScanSt::ModStrPS { which, s } => {
                        if t.kind == TokKind::Sym && str_eq(t.slice.as_str(), ")") {
                            let ghost sv = s@;
                            let ghost authors0 = module.authors@;
                            let ghost aliases0 = module.aliases@;
                            match which {
                                ModStrKind::Description => {
                                    module.description = s;
                                },
                                ModStrKind::License => {
                                    module.license = s;
                                },
                                ModStrKind::Author => {
                                    module.authors.push(s);
                                    proof {
                                        assert(crate::metadata::strs_seq(module.authors@)
                                            =~= crate::metadata::strs_seq(authors0).push(sv));
                                    }
                                },
                                ModStrKind::Alias => {
                                    module.aliases.push(s);
                                    proof {
                                        assert(crate::metadata::strs_seq(module.aliases@)
                                            =~= crate::metadata::strs_seq(aliases0).push(sv));
                                    }
                                },
                            }
                            ScanSt::Top
                        } else {
                            ScanSt::Top
                        }
                    },
                    ScanSt::ParmDesc => {
                        if t.kind == TokKind::Sym && str_eq(t.slice.as_str(), "(") {
                            ScanSt::ParmDescP
                        } else {
                            ScanSt::Top
                        }
                    },
                    ScanSt::ParmDescP => {
                        if t.kind == TokKind::Ident {
                            ScanSt::ParmDescPN { name: clone_string(&t.slice) }
                        } else {
                            ScanSt::Top
                        }
                    },
                    ScanSt::ParmDescPN { name } => {
                        if t.kind == TokKind::Sym && str_eq(t.slice.as_str(), ",") {
                            ScanSt::ParmDescPNC { name }
                        } else {
                            ScanSt::Top
                        }
                    },
                    ScanSt::ParmDescPNC { name } => {
                        if t.kind == TokKind::Str {
                            match &t.sval {
                                Some(sv) => ScanSt::ParmDescPNCS {
                                    name,
                                    s: clone_string(sv),
                                },
                                None => ScanSt::Top,
                            }
                        } else {
                            ScanSt::Top
                        }
                    },
                    ScanSt::ParmDescPNCS { name, s } => {
                        if t.kind == TokKind::Sym && str_eq(t.slice.as_str(), ")") {
                            let e = module.params.entry_mut(name.as_str(), ParamData::default());
                            e.description = s;
                            ScanSt::Top
                        } else {
                            ScanSt::Top
                        }
                    },
                    ScanSt::Par { named } => {
                        if t.kind == TokKind::Sym && str_eq(t.slice.as_str(), "(") {
                            ScanSt::ParP { named }
                        } else {
                            ScanSt::Top
                        }
                    },
                    ScanSt::ParP { named } => {
                        if t.kind == TokKind::Ident {
                            ScanSt::ParPN { named, name: clone_string(&t.slice) }
                        } else {
                            ScanSt::Top
                        }
                    },
                    ScanSt::ParPN { named, name } => {
                        if t.kind == TokKind::Sym && str_eq(t.slice.as_str(), ",") {
                            ScanSt::ParPNC { named, name }
                        } else {
                            ScanSt::Top
                        }
                    },
                    ScanSt::ParPNC { named, name } => {
                        if t.kind == TokKind::Ident {
                            if named {
                                ScanSt::ParPNCV { name }
                            } else {
                                ScanSt::ParPNCT { name, ty: clone_string(&t.slice) }
                            }
                        } else {
                            ScanSt::Top
                        }
                    },
                    ScanSt::ParPNCV { name } => {
                        if t.kind == TokKind::Sym && str_eq(t.slice.as_str(), ",") {
                            ScanSt::ParPNCVC { name }
                        } else {
                            ScanSt::Top
                        }
                    },
                    ScanSt::ParPNCVC { name } => {
                        if t.kind == TokKind::Ident {
                            ScanSt::ParPNCT { name, ty: clone_string(&t.slice) }
                        } else {
                            ScanSt::Top
                        }
                    },
                    ScanSt::ParPNCT { name, ty } => {
                        if t.kind == TokKind::Sym && str_eq(t.slice.as_str(), ",") {
                            ScanSt::ParPNCTC { name, ty }
                        } else if t.kind == TokKind::Ident {
                            ScanSt::ParPNCT {
                                name,
                                ty: ty.concat(" ").concat(t.slice.as_str()),
                            }
                        } else {
                            ScanSt::Top
                        }
                    },
                    ScanSt::ParPNCTC { name, ty } => {
                        if t.kind == TokKind::Ident {
                            let perm = mode_from_id(t.slice.as_str());
                            ScanSt::ParPNCTP { name, ty, perm }
                        } else if t.kind == TokKind::Int {
                            match t.ival {
                                Some(p) => ScanSt::ParPNCTP { name, ty, perm: p },
                                None => ScanSt::Top,
                            }
                        } else {
                            ScanSt::Top
                        }
                    },
                    ScanSt::ParPNCTP { name, ty, perm } => {
                        if t.kind == TokKind::Sym && str_eq(t.slice.as_str(), "|") {
                            ScanSt::ParPNCTP { name, ty, perm }
                        } else if t.kind == TokKind::Sym && str_eq(t.slice.as_str(), ")") {
                            let e = module.params.entry_mut(name.as_str(), ParamData::default());
                            e.type_ = ty;
                            e.perm = perm;
                            ScanSt::Top
                        } else if t.kind == TokKind::Ident {
                            let extra = mode_from_id(t.slice.as_str());
                            ScanSt::ParPNCTP { name, ty, perm: perm | extra }
                        } else if t.kind == TokKind::Int {
                            match t.ival {
                                Some(p) => ScanSt::ParPNCTP { name, ty, perm: perm | p },
                                None => ScanSt::Top,
                            }
                        } else {
                            ScanSt::Top
                        }
                    },
                };
            }
            proof {
                assert((st@, ScanAccV { compat_strs: compat@, module: module@ }) == scan_step(
                    prev_st,
                    ts[i as int],
                    prev_acc,
                ));
                assert(scan_run(prev_st, prev_acc, ts, i as int) == scan_run(
                    st@,
                    ScanAccV { compat_strs: compat@, module: module@ },
                    ts,
                    i + 1,
                ));
            }
            i = i + 1;
        }
        let m_empty = module.is_empty();
        let r = SourceData {
            config_opts: StrSet::new(),
            compat_strs: compat,
            module: if m_empty {
                None
            } else {
                Some(module)
            },
        };
        proof {
            assert(scan_run(
                ScanStV::Top,
                scan_acc_init(),
                ts,
                0,
            ).compat_strs == r@.compat_strs);
        }
        r
    }

    /// Scan one C source text: lex it, then run the machine over the tokens.
    pub fn from_source(src: &str) -> (r: SourceData)
        ensures
            r.wf(),
            r@ == scan_source_spec(src@),
    {
        let toks = lex_source(src);
        Self::from_tokens(&toks)
    }
}

} // verus!
