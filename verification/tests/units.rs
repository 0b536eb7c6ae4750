//! Unit tests for the statement parser, the scanners, the persistence
//! options and the containers.

use kquery::compats::Compats;
use kquery::io::{compress_data, decompress_data, newest_index};
use kquery::makefile::{MakeFile, MakeStmt};
use kquery::metadata::{MetaData, StrMap, StrSet};
use kquery::source::mode_from_id;
use kquery::SourceData;
use kquery::{DataCoding, DataCompress, DataOptions};

#[test]
fn conditions_are_extracted_and_trimmed() {
    let conds = MakeStmt::parse_conditions("$(CONFIG_FOO) plus $(CONFIG_BAR_2)");
    assert_eq!(conds, vec!["FOO".to_string(), "BAR_2".to_string()]);

    let trimmed = MakeStmt::parse_conditions("$(CONFIG_ FOO )");
    assert_eq!(trimmed, vec!["FOO".to_string()]);

    let rejected = MakeStmt::parse_conditions("$(CONFIG_FOO BAR)");
    assert!(rejected.is_empty());

    assert!(MakeStmt::parse_conditions("no config here").is_empty());
}

#[test]
fn elements_are_filtered_by_prefix() {
    let objs = MakeStmt::parse_elements("obj", "a.o docs b/ c.txt");
    assert_eq!(objs, vec!["a.o".to_string(), "b".to_string()]);

    let subdir = MakeStmt::parse_elements("subdir", "x y/");
    assert_eq!(subdir, vec!["x".to_string(), "y".to_string()]);

    let dashed = MakeStmt::parse_elements("obj", "-bad.o good.o");
    assert_eq!(dashed, vec!["good.o".to_string()]);

    let odd = MakeStmt::parse_elements("obj", "we$ird.o fine.o");
    assert_eq!(odd, vec!["fine.o".to_string()]);
}

#[test]
fn lines_are_classified() {
    assert!(matches!(MakeStmt::parse("endif"), Ok(Some(MakeStmt::EndIf))));
    assert!(matches!(MakeStmt::parse(""), Ok(None)));
    assert!(matches!(MakeStmt::parse("# comment"), Ok(None)));
    assert!(MakeStmt::parse("just words").is_err());

    match MakeStmt::parse("ifdef CONFIG_X") {
        Ok(Some(MakeStmt::If { conditions })) => {
            assert_eq!(conditions, vec!["X".to_string()]);
        }
        other => panic!("unexpected outcome: {:?}", other),
    }
    match MakeStmt::parse("ifeq ($(CONFIG_Y),y)") {
        Ok(Some(MakeStmt::If { conditions })) => {
            assert_eq!(conditions, vec!["Y".to_string()]);
        }
        other => panic!("unexpected outcome: {:?}", other),
    }
    match MakeStmt::parse("else ifndef CONFIG_Z") {
        Ok(Some(MakeStmt::ElseIf { conditions })) => {
            assert_eq!(conditions, vec!["Z".to_string()]);
        }
        other => panic!("unexpected outcome: {:?}", other),
    }
    match MakeStmt::parse("ifdef KBUILD_EXTMOD") {
        Ok(Some(MakeStmt::If { conditions })) => {
            assert_eq!(conditions, vec!["KBUILD_EXTMOD".to_string()]);
        }
        other => panic!("unexpected outcome: {:?}", other),
    }
    // Only a token's leading CONFIG_ is stripped, and only the first token
    // after the keyword counts.
    match MakeStmt::parse("ifndef XCONFIG_FOO") {
        Ok(Some(MakeStmt::If { conditions })) => {
            assert_eq!(conditions, vec!["XCONFIG_FOO".to_string()]);
        }
        other => panic!("unexpected outcome: {:?}", other),
    }
    match MakeStmt::parse("ifdef CONFIG_FOO # gate") {
        Ok(Some(MakeStmt::If { conditions })) => {
            assert_eq!(conditions, vec!["FOO".to_string()]);
        }
        other => panic!("unexpected outcome: {:?}", other),
    }

    match MakeStmt::parse("obj-$(CONFIG_W) += w.o") {
        Ok(Some(MakeStmt::Var { prefix, conditions, elements })) => {
            assert_eq!(prefix, "obj");
            assert_eq!(conditions, vec!["W".to_string()]);
            assert_eq!(elements, vec!["w.o".to_string()]);
        }
        other => panic!("unexpected outcome: {:?}", other),
    }

    // A variable whose right-hand side holds no object or directory carries
    // no statement.
    assert!(matches!(MakeStmt::parse("ccflags-y += -Wall"), Ok(None)));
}

#[test]
fn reader_resolves_compositions_in_order() {
    let text = "m-y := a.o\nobj-$(CONFIG_M) += m.o\n";
    let mut reader = MakeFile::parse(text);
    match reader.next_stmt() {
        Some(MakeStmt::Var { prefix, elements, .. }) => {
            assert_eq!(prefix, "obj");
            assert_eq!(elements, vec!["m.o".to_string()]);
        }
        other => panic!("unexpected statement: {:?}", other),
    }
    match reader.next_stmt() {
        Some(MakeStmt::Var { prefix, conditions, elements }) => {
            assert_eq!(prefix, "m");
            assert_eq!(conditions, vec!["M".to_string()]);
            assert_eq!(elements, vec!["a.o".to_string()]);
        }
        other => panic!("unexpected statement: {:?}", other),
    }
    assert!(reader.next_stmt().is_none());
}

#[test]
fn permission_identifiers_decode() {
    assert_eq!(mode_from_id("S_IRUGO"), 0o444);
    assert_eq!(mode_from_id("S_IWUSR"), 0o200);
    assert_eq!(mode_from_id("S_IFMT"), 0o170000);
    assert_eq!(mode_from_id("S_IXOTH"), 0o001);
    assert_eq!(mode_from_id("S_IMYSTERY"), 0);
    assert_eq!(mode_from_id("OTHER"), 0);
}

#[test]
fn scanner_reads_module_annotations() {
    let src = "MODULE_DESCRIPTION(\"A driver\");\nMODULE_AUTHOR(\"First\");\nMODULE_AUTHOR(\"Second\");\nMODULE_ALIAS(\"alias0\");\n";
    let record = SourceData::from_source(src);
    let module = record.module.as_ref().expect("module record");
    assert_eq!(module.description, "A driver");
    assert_eq!(module.authors, vec!["First".to_string(), "Second".to_string()]);
    assert_eq!(module.aliases, vec!["alias0".to_string()]);
    assert_eq!(module.license, "");
}

#[test]
fn scanner_without_findings_has_no_module() {
    let record = SourceData::from_source("int main(void) { return 0; }\n");
    assert!(record.module.is_none());
    assert_eq!(record.compat_strs.len(), 0);
}

#[test]
fn scanner_takes_compat_at_the_string() {
    let src = "{ .compatible = \"acme,widget\" },\n{ .compatible = \"acme,gadget\" }\n";
    let record = SourceData::from_source(src);
    assert!(record.compat_strs.contains("acme,widget"));
    assert!(record.compat_strs.contains("acme,gadget"));
    assert_eq!(record.compat_strs.len(), 2);

    // The string itself is what gets recorded; nothing needs to follow it.
    let tail = ".compatible = \"acme,tail\"";
    let record = SourceData::from_source(tail);
    assert!(record.compat_strs.contains("acme,tail"));
    assert_eq!(record.compat_strs.len(), 1);
}

#[test]
fn plain_module_param_takes_type_and_perm() {
    let src = "module_param(level, uint, 0444);\n";
    let record = SourceData::from_source(src);
    let module = record.module.as_ref().expect("module record");
    let param = module.params.get("level").expect("parameter");
    assert_eq!(param.type_, "uint");
    assert_eq!(param.perm, 0o444);
    assert_eq!(param.description, "");
}

#[test]
fn compats_line_scanner_crosses_lines() {
    let text = ".compatible\n= \"a,b\"\n";
    let found = Compats::from_source(text);
    assert!(found.compats.contains("a,b"));
    assert_eq!(found.compats.len(), 1);

    let two = ".compatible = \"x\", .compatible = \"y\"\n";
    let found2 = Compats::from_source(two);
    assert!(found2.compats.contains("x"));
    assert!(found2.compats.contains("y"));

    let empty = ".compatible = \"\"\n";
    assert_eq!(Compats::from_source(empty).compats.len(), 0);
}

#[test]
fn coding_and_compression_names_parse() {
    assert_eq!(DataCoding::parse("json"), Some(DataCoding::Json));
    assert_eq!(DataCoding::parse("j"), Some(DataCoding::Json));
    assert_eq!(DataCoding::parse("jp"), Some(DataCoding::JsonPretty));
    assert_eq!(DataCoding::parse("json-pretty"), Some(DataCoding::JsonPretty));
    assert_eq!(DataCoding::parse("cbor"), Some(DataCoding::Cbor));
    assert_eq!(DataCoding::parse("yaml"), None);
    assert_eq!(DataCoding::from_name("cbor"), Ok(DataCoding::Cbor));
    assert_eq!(DataCoding::from_name("yaml"), Err(kquery::Error::UnknownCoding));
    assert_eq!(DataCompress::from_name("gz"), Err(kquery::Error::UnknownCompress));
    assert_eq!(DataCompress::parse("no"), Some(DataCompress::No));
    assert_eq!(DataCompress::parse("z"), Some(DataCompress::Lz4));
    assert_eq!(DataCompress::parse("gz"), None);
}

#[test]
fn file_names_cover_the_matrix() {
    let cases = [
        (DataCoding::Json, DataCompress::No, "kquery.json"),
        (DataCoding::JsonPretty, DataCompress::No, "kquery.json-pretty"),
        (DataCoding::Cbor, DataCompress::No, "kquery.cbor"),
        (DataCoding::Json, DataCompress::Lz4, "kquery.json.lz4"),
        (DataCoding::JsonPretty, DataCompress::Lz4, "kquery.json-pretty.lz4"),
        (DataCoding::Cbor, DataCompress::Lz4, "kquery.cbor.lz4"),
    ];
    for (coding, compress, expected) in cases {
        let opts = DataOptions::new(coding, compress);
        assert_eq!(opts.file_name(), expected);
        let parsed = DataOptions::from_file(opts.file_name().as_str()).expect("round trip");
        assert_eq!(parsed.coding, coding);
        assert_eq!(parsed.compress, compress);
    }
    assert_eq!(DataOptions::file_names().len(), 6);
}

#[test]
fn options_from_odd_file_names() {
    let with_dir = DataOptions::from_file("some/dir/kquery.cbor.lz4").expect("options");
    assert_eq!(with_dir.coding, DataCoding::Cbor);
    assert_eq!(with_dir.compress, DataCompress::Lz4);

    assert!(DataOptions::from_file("no-extension").is_err());
    assert!(DataOptions::from_file("kquery.lz4").is_err());
    assert!(DataOptions::from_file("dir.with.dots/plain").is_err());
}

#[test]
fn newest_candidate_wins_strictly() {
    assert_eq!(newest_index(&vec![None, None]), None);
    assert_eq!(newest_index(&Vec::<Option<u64>>::new()), None);
    assert_eq!(newest_index(&vec![None, Some(5), Some(9), None]), Some(2));
    // Ties keep the earliest candidate.
    assert_eq!(newest_index(&vec![Some(7), Some(7)]), Some(0));
}

#[test]
fn lz4_round_trip_restores_bytes() {
    let data: Vec<u8> = b"a body of bytes, repeated, repeated, repeated".to_vec();
    let packed = compress_data(data.clone(), DataCompress::Lz4);
    assert_ne!(packed, data);
    let unpacked = decompress_data(packed, DataCompress::Lz4).expect("decompress");
    assert_eq!(unpacked, data);

    let plain = compress_data(data.clone(), DataCompress::No);
    assert_eq!(plain, data);
    assert_eq!(decompress_data(plain, DataCompress::No).expect("identity"), data);

    assert!(decompress_data(Vec::new(), DataCompress::Lz4).is_err());
}

#[test]
fn containers_behave_like_sets_and_maps() {
    let mut set = StrSet::new();
    assert!(set.is_empty());
    set.insert("a".to_string());
    set.insert("b".to_string());
    set.insert("a".to_string());
    assert_eq!(set.len(), 2);
    assert!(!set.is_empty());
    assert!(set.contains("a"));
    assert!(!set.contains("c"));

    let mut map: StrMap<u32> = StrMap::new();
    map.insert("one".to_string(), 1);
    map.insert("two".to_string(), 2);
    map.insert("one".to_string(), 10);
    assert_eq!(map.len(), 2);
    assert_eq!(map.get("one"), Some(&10));
    assert_eq!(map.get("three"), None);
    map.remove("one");
    assert_eq!(map.len(), 1);
    assert!(!map.contains_key("one"));
}

#[test]
fn mutable_accessors_default_insert() {
    let mut meta = MetaData::default();
    meta.config_opt_mut("NEW").add_source("a.c".to_string());
    assert!(meta.config_opt("NEW").expect("entry").sources.contains("a.c"));
    meta.compat_str_mut("c,s").set_source("b.c".to_string());
    assert_eq!(meta.compat_str("c,s").expect("entry").source, "b.c");
    let record = meta.source_mut("fresh.c");
    assert_eq!(record.config_opts.len(), 0);
    assert!(meta.source("fresh.c").is_some());
}

#[test]
fn parameter_description_may_come_first() {
    let src = "MODULE_PARM_DESC(depth, \"queue depth\");\nmodule_param(depth, int, 0600);\n";
    let record = SourceData::from_source(src);
    let module = record.module.as_ref().expect("module record");
    let param = module.params.get("depth").expect("parameter");
    assert_eq!(param.description, "queue depth");
    assert_eq!(param.type_, "int");
    assert_eq!(param.perm, 0o600);
}

#[test]
fn multiword_types_are_joined() {
    let src = "module_param(span, unsigned long, 0400);\n";
    let record = SourceData::from_source(src);
    let module = record.module.as_ref().expect("module record");
    let param = module.params.get("span").expect("parameter");
    assert_eq!(param.type_, "unsigned long");
}

#[test]
fn else_ifeq_is_an_elseif() {
    match MakeStmt::parse("else ifeq ($(CONFIG_Q),m)") {
        Ok(Some(MakeStmt::ElseIf { conditions })) => {
            assert_eq!(conditions, vec!["Q".to_string()]);
        }
        other => panic!("unexpected outcome: {:?}", other),
    }
    // `else` followed by anything but a conditional keyword is unrecognised.
    assert!(MakeStmt::parse("else something").is_err());
}

#[test]
fn one_root_var_drains_several_prefixes() {
    let text = "a-y := x.o\nb-y := y.o\nobj-y += a.o b.o\n";
    let mut reader = MakeFile::parse(text);
    let mut seen = Vec::new();
    while let Some(stmt) = reader.next_stmt() {
        match stmt {
            MakeStmt::Var { prefix, elements, .. } => {
                seen.push((prefix, elements));
            }
            other => panic!("unexpected statement: {:?}", other),
        }
    }
    assert_eq!(seen.len(), 3);
    assert_eq!(seen[0].0, "obj");
    assert_eq!(seen[1], ("a".to_string(), vec!["x.o".to_string()]));
    assert_eq!(seen[2], ("b".to_string(), vec!["y.o".to_string()]));
}

#[test]
fn several_orphans_drain_in_order() {
    let text = "m-y := a.o\nm-$(CONFIG_EXTRA) += b.o\nobj-$(CONFIG_M) += m.o\n";
    let mut reader = MakeFile::parse(text);
    let mut seen = Vec::new();
    while let Some(stmt) = reader.next_stmt() {
        match stmt {
            MakeStmt::Var { prefix, conditions, elements } => {
                seen.push((prefix, conditions, elements));
            }
            other => panic!("unexpected statement: {:?}", other),
        }
    }
    assert_eq!(seen.len(), 3);
    assert_eq!(seen[0].0, "obj");
    assert_eq!(seen[1], ("m".to_string(), vec!["M".to_string()], vec!["a.o".to_string()]));
    assert_eq!(
        seen[2],
        ("m".to_string(), vec!["EXTRA".to_string(), "M".to_string()], vec!["b.o".to_string()])
    );
}
