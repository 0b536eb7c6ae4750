//! End-to-end scenarios driving the pure pipeline: Makefile planning, C
//! scanning, merging and reverse-map derivation.

use kquery::kbuild::{plan_makefile, Conditions, DirAction};
use kquery::makefile::MakeFile;
use kquery::metadata::{MetaData, StrSet};
use kquery::SourceData;

fn plan(text: &str) -> Vec<DirAction> {
    let init = Conditions::new();
    plan_makefile(&init, text)
}

fn merge_object(meta: &mut MetaData, path: &str, source_text: &str, conditions: &Conditions) {
    let record = SourceData::from_source(source_text);
    let set = conditions.to_str_set();
    meta.merge_source(path, record, &set);
}

#[test]
fn single_makefile_with_module() {
    let makefile = "obj-$(CONFIG_FOO) += bar.o\n";
    let bar_c = "MODULE_LICENSE(\"GPL\");\nstatic const struct of_device_id ids[] = {\n    { .compatible = \"vendor,thing\" },\n};\n";

    let actions = plan(makefile);
    assert_eq!(actions.len(), 1);
    let mut meta = MetaData::default();
    match &actions[0] {
        DirAction::Object { stem, conditions } => {
            assert_eq!(stem, "bar");
            merge_object(&mut meta, "bar.c", bar_c, conditions);
        }
        DirAction::Subdir { .. } => panic!("expected an object action"),
    }
    meta.sync_with_sources();

    let record = meta.source("bar.c").expect("record for bar.c");
    assert!(record.config_opts.contains("FOO"));
    assert_eq!(record.config_opts.len(), 1);
    assert!(record.compat_strs.contains("vendor,thing"));
    assert_eq!(record.compat_strs.len(), 1);
    let module = record.module.as_ref().expect("module record");
    assert_eq!(module.license, "GPL");

    let opt = meta.config_opt("FOO").expect("reverse entry for FOO");
    assert!(opt.sources.contains("bar.c"));
    assert_eq!(opt.sources.len(), 1);

    let compat = meta.compat_str("vendor,thing").expect("compat entry");
    assert_eq!(compat.source, "bar.c");
}

#[test]
fn nested_directories_accumulate_conditions() {
    let top = "obj-$(CONFIG_A) += sub/\n";
    let sub = "obj-$(CONFIG_B) += x.o\n";

    let top_actions = plan(top);
    assert_eq!(top_actions.len(), 1);
    let mut meta = MetaData::default();
    match &top_actions[0] {
        DirAction::Subdir { name, conditions } => {
            assert_eq!(name, "sub");
            let sub_actions = plan_makefile(conditions, sub);
            assert_eq!(sub_actions.len(), 1);
            match &sub_actions[0] {
                DirAction::Object { stem, conditions } => {
                    assert_eq!(stem, "x");
                    merge_object(&mut meta, "sub/x.c", "", conditions);
                }
                DirAction::Subdir { .. } => panic!("expected an object action"),
            }
        }
        DirAction::Object { .. } => panic!("expected a subdirectory action"),
    }
    meta.sync_with_sources();

    let record = meta.source("sub/x.c").expect("record for sub/x.c");
    assert!(record.config_opts.contains("A"));
    assert!(record.config_opts.contains("B"));
    assert_eq!(record.config_opts.len(), 2);
}

fn object_stems_with_m(actions: &[DirAction]) -> Vec<String> {
    let mut stems = Vec::new();
    for action in actions {
        match action {
            DirAction::Object { stem, conditions } => {
                assert_eq!(conditions.items.len(), 1);
                assert_eq!(conditions.items[0], "M");
                stems.push(stem.clone());
            }
            DirAction::Subdir { .. } => panic!("expected only object actions"),
        }
    }
    stems
}

#[test]
fn composition_appends_root_conditions() {
    let makefile = "obj-$(CONFIG_M) += m.o\nm-y := a.o b.o\n";
    let stems = object_stems_with_m(&plan(makefile));
    assert_eq!(stems, vec!["m".to_string(), "a".to_string(), "b".to_string()]);
}

#[test]
fn forward_reference_drains_orphans() {
    let makefile = "m-y := a.o b.o\nobj-$(CONFIG_M) += m.o\n";
    let stems = object_stems_with_m(&plan(makefile));
    assert_eq!(stems, vec!["m".to_string(), "a".to_string(), "b".to_string()]);
}

#[test]
fn module_parameters_with_description() {
    let src = "module_param_named(pub, v, int, S_IRUGO | S_IWUSR);\nMODULE_PARM_DESC(pub, \"hello\");\n";
    let record = SourceData::from_source(src);
    let module = record.module.as_ref().expect("module record");
    let param = module.params.get("pub").expect("parameter entry");
    assert_eq!(param.type_, "int");
    assert_eq!(param.perm, 0o644);
    assert_eq!(param.description, "hello");
}

#[test]
fn empty_tree_has_empty_reverse_maps() {
    let mut meta = MetaData::default();
    meta.sync_with_sources();
    assert_eq!(meta.config_opts.len(), 0);
    assert_eq!(meta.compat_strs.len(), 0);
    assert!(meta.config_opt("ANY").is_none());
    assert!(meta.compat_str("any").is_none());
}

#[test]
fn comments_only_makefile_yields_nothing() {
    let text = "# a comment\n\n   # another\n";
    let mut reader = MakeFile::parse(text);
    assert!(reader.next_stmt().is_none());
    assert!(plan(text).is_empty());
}

#[test]
fn backslash_splices_three_physical_lines() {
    let spliced = "obj-$(CONFIG_X) \\\n += \\\ny.o\n";
    let plain = "obj-$(CONFIG_X)  +=  y.o\n";
    let a = plan(spliced);
    let b = plan(plain);
    assert_eq!(a.len(), 1);
    assert_eq!(b.len(), 1);
    match (&a[0], &b[0]) {
        (
            DirAction::Object { stem: sa, conditions: ca },
            DirAction::Object { stem: sb, conditions: cb },
        ) => {
            assert_eq!(sa, "y");
            assert_eq!(sa, sb);
            assert_eq!(ca.items, cb.items);
            assert_eq!(ca.items, vec!["X".to_string()]);
        }
        _ => panic!("expected object actions"),
    }
}

#[test]
fn conditional_blocks_follow_the_stack() {
    let makefile = "ifdef CONFIG_A\nobj-y += a.o\nelse ifdef CONFIG_B\nobj-y += b.o\nendif\nobj-y += c.o\n";
    let actions = plan(makefile);
    assert_eq!(actions.len(), 3);
    let mut seen = Vec::new();
    for action in &actions {
        match action {
            DirAction::Object { stem, conditions } => {
                seen.push((stem.clone(), conditions.items.clone()));
            }
            DirAction::Subdir { .. } => panic!("expected object actions"),
        }
    }
    assert_eq!(seen[0], ("a".to_string(), vec!["A".to_string()]));
    assert_eq!(seen[1], ("b".to_string(), vec!["B".to_string()]));
    assert_eq!(seen[2], ("c".to_string(), Vec::<String>::new()));
}

#[test]
fn merge_unions_and_module_replaces() {
    let mut meta = MetaData::default();

    let mut first = SourceData::default();
    let mut opts = StrSet::new();
    opts.insert("EARLY".to_string());
    first.add_config_opts(&opts);
    let empty = StrSet::new();
    meta.merge_source("d/f.c", first, &empty);

    let second = SourceData::from_source("MODULE_LICENSE(\"GPL\");\n");
    let mut conds = StrSet::new();
    conds.insert("LATE".to_string());
    meta.merge_source("d/f.c", second, &conds);

    meta.sync_with_sources();
    let record = meta.source("d/f.c").expect("record");
    assert!(record.config_opts.contains("EARLY"));
    assert!(record.config_opts.contains("LATE"));
    assert_eq!(record.config_opts.len(), 2);
    assert_eq!(record.module.as_ref().expect("module").license, "GPL");
    assert!(meta.config_opt("EARLY").expect("entry").sources.contains("d/f.c"));
    assert!(meta.config_opt("LATE").expect("entry").sources.contains("d/f.c"));
}

#[test]
fn reverse_maps_agree_with_records() {
    let mut meta = MetaData::default();
    let mk = "obj-$(CONFIG_SHARED) += one.o two.o\n";
    let one = "{ .compatible = \"v,one\" },\n";
    let two = "{ .compatible = \"v,two\" },\n";
    let actions = plan(mk);
    assert_eq!(actions.len(), 2);
    for (action, (path, text)) in actions.iter().zip([("one.c", one), ("two.c", two)]) {
        match action {
            DirAction::Object { conditions, .. } => {
                merge_object(&mut meta, path, text, conditions);
            }
            DirAction::Subdir { .. } => panic!("expected object actions"),
        }
    }
    meta.sync_with_sources();
    let shared = meta.config_opt("SHARED").expect("entry");
    assert!(shared.sources.contains("one.c"));
    assert!(shared.sources.contains("two.c"));
    assert_eq!(shared.sources.len(), 2);
    assert_eq!(meta.compat_str("v,one").expect("entry").source, "one.c");
    assert_eq!(meta.compat_str("v,two").expect("entry").source, "two.c");
}

#[test]
fn other_extensions_become_subdirectories() {
    let actions = plan("obj-y += a.b/ plain/ m.o\n");
    assert_eq!(actions.len(), 3);
    match &actions[0] {
        DirAction::Subdir { name, .. } => assert_eq!(name, "a.b"),
        other => panic!("expected a subdirectory action: {:?}", other),
    }
    match &actions[1] {
        DirAction::Subdir { name, .. } => assert_eq!(name, "plain"),
        other => panic!("expected a subdirectory action: {:?}", other),
    }
    match &actions[2] {
        DirAction::Object { stem, .. } => assert_eq!(stem, "m"),
        other => panic!("expected an object action: {:?}", other),
    }
}

#[test]
fn compat_entry_stores_the_last_claimant() {
    let mut meta = MetaData::default();
    let empty = StrSet::new();
    meta.merge_source("one.c", SourceData::from_source("{ .compatible = \"v,x\" },\n"), &empty);
    meta.merge_source("two.c", SourceData::from_source("{ .compatible = \"v,x\" },\n"), &empty);
    meta.sync_with_sources();
    assert_eq!(meta.compat_str("v,x").expect("entry").source, "two.c");

    // Re-deriving over the unchanged source map changes nothing.
    let opts_before = meta.config_opts.keys.clone();
    let compats_before: Vec<String> =
        meta.compat_strs.vals.iter().map(|e| e.source.clone()).collect();
    meta.sync_with_sources();
    assert_eq!(meta.config_opts.keys, opts_before);
    let compats_after: Vec<String> =
        meta.compat_strs.vals.iter().map(|e| e.source.clone()).collect();
    assert_eq!(compats_after, compats_before);
}

fn build_once() -> MetaData {
    let mut meta = MetaData::default();
    let actions = plan("obj-$(CONFIG_T) += p.o q.o\n");
    let texts = [("p.c", "MODULE_LICENSE(\"GPL\");\n"), ("q.c", "{ .compatible = \"t,q\" },\n")];
    for (action, (path, text)) in actions.iter().zip(texts) {
        match action {
            DirAction::Object { conditions, .. } => merge_object(&mut meta, path, text, conditions),
            DirAction::Subdir { .. } => panic!("expected object actions"),
        }
    }
    meta.sync_with_sources();
    meta
}

#[test]
fn indexing_twice_yields_the_same_store() {
    let first = build_once();
    let second = build_once();
    assert_eq!(first.sources.keys, second.sources.keys);
    for (a, b) in first.sources.vals.iter().zip(second.sources.vals.iter()) {
        assert_eq!(a.config_opts.items, b.config_opts.items);
        assert_eq!(a.compat_strs.items, b.compat_strs.items);
        assert_eq!(a.module.is_some(), b.module.is_some());
    }
    assert_eq!(first.config_opts.keys, second.config_opts.keys);
    assert_eq!(first.compat_strs.keys, second.compat_strs.keys);
}
