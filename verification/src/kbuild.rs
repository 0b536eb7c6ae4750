//! The crawler's decision core: condition chains, the per-directory
//! condition stack driven by Makefile statements, and the merge of scanned
//! records into the metadata store.
//!
//! The surrounding task pool and all file access stay outside the library;
//! they feed directory texts in and carry the produced actions out.

use crate::makefile::{
    append_all, clone_strs, mf_next, MakeFile, MakeFileV, MakeStmt, StmtV,
};
use crate::metadata::{clone_string, strs_seq, MetaData, SourceData, SourceDataV, StrSet};
use crate::strutil::{rfind_char, rfind_char_in, sub_string};
use vstd::prelude::*;

verus! {

/// The `CONFIG_*` predicates accumulated around one traversal frame, in the
/// order they were added; duplicates are allowed and dropped when the chain
/// is attached to a record.
#[derive(Debug)]
pub struct Conditions {
    pub items: Vec<String>,
}

impl View for Conditions {
    type V = Seq<Seq<char>>;

    open spec fn view(&self) -> Seq<Seq<char>> {
        strs_seq(self.items@)
    }
}

impl Conditions {
    pub fn new() -> (r: Conditions)
        ensures
            r@ == Seq::<Seq<char>>::empty(),
    {
        let r = Conditions { items: Vec::new() };
        proof {
            assert(r@ =~= Seq::<Seq<char>>::empty());
        }
        r
    }

    /// Append one condition name.
    pub fn add(&mut self, condition: String)
        ensures
            final(self)@ == old(self)@.push(condition@),
    {
        let ghost prev = self.items@;
        self.items.push(condition);
        proof {
            assert(self@ =~= strs_seq(prev).push(self.items@.last()@));
        }
    }

    /// A copy holding the same names.
    pub fn duplicate(&self) -> (r: Conditions)
        ensures
            r@ == self@,
    {
        Conditions { items: clone_strs(&self.items) }
    }

    /// The set of names in the chain, duplicates dropped.
    pub fn to_str_set(&self) -> (r: StrSet)
        ensures
            r.wf(),
            r@ == crate::metadata::strs_set(self.items@),
    {
        let mut r = StrSet::new();
        let n = self.items.len();
        let mut i: usize = 0;
        while i < n
            invariant
                n == self.items@.len(),
                i <= n,
                r.wf(),
                r@ == crate::metadata::strs_set(self.items@.take(i as int)),
            decreases n - i,
        {
            r.insert(clone_string(&self.items[i]));
            proof {
                assert(self.items@.take(i + 1).drop_last() =~= self.items@.take(i as int));
                assert(self.items@.take(i + 1).last() == self.items@[i as int]);
            }
            i = i + 1;
        }
        proof {
            assert(self.items@.take(n as int) =~= self.items@);
        }
        r
    }
}

/// What a directory's Makefile asks the crawler to do next.
#[derive(Debug)]
pub enum DirAction {
    /// Resolve an object: probe `<stem>.c`, then `<stem>.S`, and scan the C
    /// source under the given conditions.
    Object { stem: String, conditions: Conditions },
    /// Descend into a subdirectory under the given conditions.
    Subdir { name: String, conditions: Conditions },
}

pub ghost enum ActionV {
    Object { stem: Seq<char>, conditions: Seq<Seq<char>> },
    Subdir { name: Seq<char>, conditions: Seq<Seq<char>> },
}

impl View for DirAction {
    type V = ActionV;

    open spec fn view(&self) -> ActionV {
        match self {
            DirAction::Object { stem, conditions } => ActionV::Object {
                stem: stem@,
                conditions: conditions@,
            },
            DirAction::Subdir { name, conditions } => ActionV::Subdir {
                name: name@,
                conditions: conditions@,
            },
        }
    }
}

pub open spec fn actions_seq(v: Seq<DirAction>) -> Seq<ActionV> {
    v.map_values(|a: DirAction| a@)
}

pub open spec fn stmts_seq(v: Seq<MakeStmt>) -> Seq<StmtV> {
    v.map_values(|s: MakeStmt| s@)
}

pub open spec fn conds_stack_seq(v: Seq<Conditions>) -> Seq<Seq<Seq<char>>> {
    v.map_values(|c: Conditions| c@)
}

/// Where the final component of `el` splits into stem and extension, if it
/// has an extension at all.
pub open spec fn last_dot_split(el: Seq<char>) -> Option<int> {
    let cstart = match rfind_char(el, '/', el.len() as int) {
        Some(sl) => sl + 1,
        None => 0,
    };
    if el.len() - cstart == 2 && el[cstart] == '.' && el[cstart + 1] == '.' {
        None
    } else {
        match rfind_char(el, '.', el.len() as int) {
            Some(d) => if d > cstart {
                Some(d)
            } else {
                None
            },
            None => None,
        }
    }
}

/// The actions one Var statement's elements produce under conditions `eff`:
/// an element with extension `.o` resolves an object, every other element is
/// scheduled as a subdirectory.
pub open spec fn var_actions(eff: Seq<Seq<char>>, elems: Seq<Seq<char>>, e: int) -> Seq<ActionV>
    decreases elems.len() - e,
{
    if !(0 <= e < elems.len()) {
        Seq::empty()
    } else {
        let el = elems[e];
        let rest = var_actions(eff, elems, e + 1);
        match last_dot_split(el) {
            Some(d) => {
                if el.subrange(d + 1, el.len() as int) == seq!['o'] {
                    seq![ActionV::Object { stem: el.subrange(0, d), conditions: eff }] + rest
                } else {
                    seq![ActionV::Subdir { name: el, conditions: eff }] + rest
                }
            },
            None => seq![ActionV::Subdir { name: el, conditions: eff }] + rest,
        }
    }
}

/// The actions produced by running the statements from `k` on over the given
/// condition stack.
pub open spec fn dir_run(stack: Seq<Seq<Seq<char>>>, stmts: Seq<StmtV>, k: int) -> Seq<ActionV>
    decreases stmts.len() - k,
{
    if !(0 <= k < stmts.len()) {
        Seq::empty()
    } else {
        match stmts[k] {
            StmtV::Var { prefix, conditions, elements } => {
                let eff = stack.last() + conditions;
                var_actions(eff, elements, 0) + dir_run(stack, stmts, k + 1)
            },
            StmtV::If { conditions } => {
                dir_run(stack.push(stack.last() + conditions), stmts, k + 1)
            },
            StmtV::ElseIf { conditions } => {
                let base = if stack.len() > 1 {
                    stack.drop_last()
                } else {
                    stack
                };
                dir_run(base.push(base.last() + conditions), stmts, k + 1)
            },
            StmtV::EndIf => {
                let base = if stack.len() > 1 {
                    stack.drop_last()
                } else {
                    stack
                };
                dir_run(base, stmts, k + 1)
            },
        }
    }
}

/// The actions of one directory's statement list under initial conditions.
pub open spec fn plan_spec(init: Seq<Seq<char>>, stmts: Seq<StmtV>) -> Seq<ActionV> {
    dir_run(seq![init], stmts, 0)
}

/// Run the condition-stack machine over `stmts`, starting from `init`.
pub fn process_statements(init: &Conditions, stmts: &Vec<MakeStmt>) -> (r: Vec<DirAction>)
    ensures
        actions_seq(r@) == plan_spec(init@, stmts_seq(stmts@)),
{
    let mut stack: Vec<Conditions> = Vec::new();
    stack.push(init.duplicate());
    proof {
        assert(conds_stack_seq(stack@) =~= seq![init@]);
    }
    let mut acts: Vec<DirAction> = Vec::new();
    let n = stmts.len();
    let mut k: usize = 0;
    while k < n
        invariant
            n == stmts@.len(),
            k <= n,
            stack@.len() >= 1,
            plan_spec(init@, stmts_seq(stmts@)) == actions_seq(acts@) + dir_run(
                conds_stack_seq(stack@),
                stmts_seq(stmts@),
                k as int,
            ),
        decreases n - k,
    {
        let ghost stack0 = conds_stack_seq(stack@);
        let ghost acts0 = acts@;
        match &stmts[k] {
            MakeStmt::Var { prefix, conditions, elements } => {
                let mut eff = stack[stack.len() - 1].duplicate();
                append_all(&mut eff.items, conditions);
                proof {
                    assert(stack0.last() == stack@.last()@);
                    assert(eff@ == stack0.last() + strs_seq(conditions@));
                }
                let ghost effv = eff@;
                let ghost elemsv = strs_seq(elements@);
                let en = elements.len();
                let mut e: usize = 0;
                while e < en
                    invariant
                        en == elements@.len(),
                        e <= en,
                        effv == eff@,
                        elemsv == strs_seq(elements@),
                        actions_seq(acts@) + var_actions(effv, elemsv, e as int) == actions_seq(
                            acts0,
                        ) + var_actions(effv, elemsv, 0),
                    decreases en - e,
                {
                    let ghost acts_prev = acts@;
                    let el = &elements[e];
                    let elc = crate::strutil::chars_of(el.as_str());
                    let el_len = elc.len();
                    let cstart = match rfind_char_in(&elc, '/', el_len) {
                        Some(sl) => sl + 1,
                        None => 0,
                    };
                    let dotdot = el_len - cstart == 2 && elc[cstart] == '.' && elc[cstart + 1]
                        == '.';
                    let mut split: Option<usize> = None;
                    if !dotdot {
                        match rfind_char_in(&elc, '.', el_len) {
                            Some(d) => {
                                if d > cstart {
                                    split = Some(d);
                                }
                            },
                            None => {},
                        }
                    }
                    proof {
                        assert(elemsv[e as int] == elements@[e as int]@);
                        match split {
                            Some(d) => {
                                assert(last_dot_split(elc@) == Some(d as int));
                            },
                            None => {
                                assert(last_dot_split(elc@) is None <==> split is None);
                            },
                        }
                    }
                    match split {
                        Some(d) => {
                            let is_obj = el_len - d == 2 && elc[d + 1] == 'o';
                            proof {
                                if is_obj {
                                    assert(elc@.subrange(d + 1, el_len as int) =~= seq!['o']);
                                } else {
                                    assert(elc@.subrange(d + 1, el_len as int) != seq![
                                        'o',
                                    ]) by {
                                        if elc@.subrange(d + 1, el_len as int) =~= seq!['o'] {
                                            assert(elc@.subrange(d + 1, el_len as int).len()
                                                == 1);
                                            assert(elc@.subrange(d + 1, el_len as int)[0]
                                                == elc@[d + 1]);
                                        }
                                    }
                                }
                            }
                            if is_obj {
                                let stem = sub_string(el.as_str(), 0, d);
                                acts.push(
                                    DirAction::Object { stem, conditions: eff.duplicate() },
                                );
                            } else {
                                let name = clone_string(el);
                                acts.push(
                                    DirAction::Subdir { name, conditions: eff.duplicate() },
                                );
                            }
                        },
                        None => {
                            let name = clone_string(el);
                            acts.push(DirAction::Subdir { name, conditions: eff.duplicate() });
                        },
                    }
                    proof {
                        let old_rem = var_actions(effv, elemsv, e as int);
                        let new_rem = var_actions(effv, elemsv, e + 1);
                        assert(old_rem == (match last_dot_split(elemsv[e as int]) {
                            Some(d) => {
                                if elemsv[e as int].subrange(
                                    d + 1,
                                    elemsv[e as int].len() as int,
                                ) == seq!['o'] {
                                    seq![
                                        ActionV::Object {
                                            stem: elemsv[e as int].subrange(0, d),
                                            conditions: effv,
                                        },
                                    ] + new_rem
                                } else {
                                    seq![
                                        ActionV::Subdir {
                                            name: elemsv[e as int],
                                            conditions: effv,
                                        },
                                    ] + new_rem
                                }
                            },
                            None => seq![
                                ActionV::Subdir { name: elemsv[e as int], conditions: effv },
                            ] + new_rem,
                        }));
                        if acts@.len() > acts_prev.len() {
                            assert(actions_seq(acts@) =~= actions_seq(acts_prev) + seq![
                                acts@.last()@,
                            ]);
                        }
                        assert(actions_seq(acts@) + new_rem =~= actions_seq(acts_prev) + old_rem);
                        assert(actions_seq(acts@) + var_actions(effv, elemsv, e + 1)
                            =~= actions_seq(acts0) + var_actions(effv, elemsv, 0));
                    }
                    e = e + 1;
                }
                proof {
                    assert(var_actions(effv, elemsv, en as int) =~= Seq::<ActionV>::empty());
                    assert(actions_seq(acts@) =~= actions_seq(acts@) + var_actions(
                        effv,
                        elemsv,
                        en as int,
                    ));
                    assert(actions_seq(acts@) =~= actions_seq(acts0) + var_actions(
                        effv,
                        elemsv,
                        0,
                    ));
                    assert(dir_run(stack0, stmts_seq(stmts@), k as int) == var_actions(
                        effv,
                        elemsv,
                        0,
                    ) + dir_run(stack0, stmts_seq(stmts@), k + 1));
                }
            },
            MakeStmt::If { conditions } => {
                let mut eff = stack[stack.len() - 1].duplicate();
                append_all(&mut eff.items, conditions);
                stack.push(eff);
                proof {
                    assert(conds_stack_seq(stack@) =~= stack0.push(
                        stack0.last() + strs_seq(conditions@),
                    ));
                }
            },
            MakeStmt::ElseIf { conditions } => {
                if stack.len() > 1 {
                    stack.pop();
                }
                proof {
                    if stack0.len() > 1 {
                        assert(conds_stack_seq(stack@) =~= stack0.drop_last());
                    } else {
                        assert(conds_stack_seq(stack@) =~= stack0);
                    }
                }
                let mut eff = stack[stack.len() - 1].duplicate();
                append_all(&mut eff.items, conditions);
                let ghost base = conds_stack_seq(stack@);
                stack.push(eff);
                proof {
                    assert(conds_stack_seq(stack@) =~= base.push(
                        base.last() + strs_seq(conditions@),
                    ));
                }
            },
            MakeStmt::EndIf => {
                if stack.len() > 1 {
                    stack.pop();
                }
                proof {
                    if stack0.len() > 1 {
                        assert(conds_stack_seq(stack@) =~= stack0.drop_last());
                    } else {
                        assert(conds_stack_seq(stack@) =~= stack0);
                    }
                }
            },
        }
        k = k + 1;
    }
    proof {
        assert(actions_seq(acts@) =~= actions_seq(acts@) + dir_run(
            conds_stack_seq(stack@),
            stmts_seq(stmts@),
            n as int,
        ));
    }
    acts
}

/// How much draining work the pending prefixes still hold: one unit per
/// queued prefix plus the length of each prefix's orphan queue.
pub open spec fn pending_load(
    pending: Seq<Seq<char>>,
    orphans: Map<Seq<char>, Seq<crate::makefile::OrphanV>>,
) -> nat
    decreases pending.len(),
{
    if pending.len() == 0 {
        0
    } else {
        1 + (if orphans.contains_key(pending[0]) {
            orphans[pending[0]].len()
        } else {
            0
        }) + pending_load(pending.drop_first(), orphans)
    }
}

/// Shrinking one prefix's orphan queue never grows the load, and strictly
/// shrinks it when that prefix heads the pending queue.
pub proof fn lemma_pending_load_shrink(
    pending: Seq<Seq<char>>,
    orphans: Map<Seq<char>, Seq<crate::makefile::OrphanV>>,
    pfx: Seq<char>,
    shorter: Seq<crate::makefile::OrphanV>,
)
    requires
        orphans.contains_key(pfx),
        shorter.len() < orphans[pfx].len(),
    ensures
        pending_load(pending, orphans.insert(pfx, shorter)) <= pending_load(pending, orphans),
        pending.len() > 0 && pending[0] == pfx ==> pending_load(
            pending,
            orphans.insert(pfx, shorter),
        ) < pending_load(pending, orphans),
    decreases pending.len(),
{
    if pending.len() > 0 {
        lemma_pending_load_shrink(pending.drop_first(), orphans, pfx, shorter);
    }
}

/// Removing one prefix's queue never grows the load.
pub proof fn lemma_pending_load_remove(
    pending: Seq<Seq<char>>,
    orphans: Map<Seq<char>, Seq<crate::makefile::OrphanV>>,
    pfx: Seq<char>,
)
    ensures
        pending_load(pending, orphans.remove(pfx)) <= pending_load(pending, orphans),
    decreases pending.len(),
{
    if pending.len() > 0 {
        lemma_pending_load_remove(pending.drop_first(), orphans, pfx);
    }
}

pub open spec fn step_state(step: crate::makefile::MfStep) -> MakeFileV {
    MakeFileV {
        lines: step.lines,
        modules: step.modules,
        orphans: step.orphans,
        pending: step.pending,
    }
}

/// Reading lines only ever shortens what is left.
pub proof fn lemma_mf_read_some(
    lines: Seq<Seq<char>>,
    full: Option<Seq<char>>,
    modules: Map<Seq<char>, Seq<Seq<char>>>,
    orphans: Map<Seq<char>, Seq<crate::makefile::OrphanV>>,
)
    ensures
        crate::makefile::mf_read(lines, full, modules, orphans).stmt is Some ==> crate::makefile::mf_read(
            lines,
            full,
            modules,
            orphans,
        ).lines.len() < lines.len(),
        crate::makefile::mf_read(lines, full, modules, orphans).lines.len() <= lines.len(),
    decreases lines.len(),
{
    if lines.len() > 0 {
        let line = lines[0];
        let rest = lines.drop_first();
        if line.len() > 0 && line[line.len() - 1] == '\\' {
            let before = line.subrange(0, line.len() - 1);
            let full2 = match full {
                Some(f) => Some(f + before),
                None => Some(before),
            };
            lemma_mf_read_some(rest, full2, modules, orphans);
        } else {
            let joined = match full {
                Some(f) => f + line,
                None => line,
            };
            match crate::makefile::parse_stmt_spec(joined) {
                crate::makefile::StmtSpec::Skip => {
                    lemma_mf_read_some(rest, None, modules, orphans);
                },
                crate::makefile::StmtSpec::Unrecognized => {
                    lemma_mf_read_some(rest, None, modules, orphans);
                },
                crate::makefile::StmtSpec::Stmt(stmt) => {
                    if let StmtV::Var { prefix, conditions, elements } = stmt {
                        if !crate::makefile::root_prefix(prefix) && !modules.contains_key(
                            prefix,
                        ) {
                            let q = if orphans.contains_key(prefix) {
                                orphans[prefix]
                            } else {
                                Seq::empty()
                            };
                            lemma_mf_read_some(
                                rest,
                                None,
                                modules,
                                orphans.insert(
                                    prefix,
                                    q.push(
                                        crate::makefile::OrphanV { elements, conditions },
                                    ),
                                ),
                            );
                        }
                    }
                },
            }
        }
    }
}

/// Every yielded statement strictly shrinks the reader's measure.
pub proof fn lemma_mf_next_progress(st: MakeFileV)
    ensures
        mf_next(st).lines.len() <= st.lines.len(),
        mf_next(st).stmt is Some ==> (mf_next(st).lines.len() < st.lines.len() || (mf_next(
            st,
        ).lines == st.lines && pending_load(mf_next(st).pending, mf_next(st).orphans)
            < pending_load(st.pending, st.orphans))),
    decreases st.pending.len(),
{
    if st.pending.len() == 0 {
        lemma_mf_read_some(st.lines, None, st.modules, st.orphans);
    } else {
        let pfx = st.pending[0];
        if st.modules.contains_key(pfx) && st.orphans.contains_key(pfx) {
            let q = st.orphans[pfx];
            if q.len() > 0 {
                lemma_pending_load_shrink(st.pending, st.orphans, pfx, q.drop_first());
            } else {
                let popped = MakeFileV {
                    lines: st.lines,
                    modules: st.modules,
                    orphans: st.orphans.remove(pfx),
                    pending: st.pending.drop_first(),
                };
                lemma_mf_next_progress(popped);
                lemma_pending_load_remove(st.pending.drop_first(), st.orphans, pfx);
            }
        } else {
            let popped = MakeFileV {
                lines: st.lines,
                modules: st.modules,
                orphans: st.orphans,
                pending: st.pending.drop_first(),
            };
            lemma_mf_next_progress(popped);
        }
    }
}

/// Every statement the reader will still yield, in order.
pub open spec fn read_all(st: MakeFileV) -> Seq<StmtV>
    decreases st.lines.len(), pending_load(st.pending, st.orphans),
        via read_all_dec
{
    let step = mf_next(st);
    match step.stmt {
        None => Seq::empty(),
        Some(v) => seq![v] + read_all(step_state(step)),
    }
}

#[via_fn]
proof fn read_all_dec(st: MakeFileV) {
    lemma_mf_next_progress(st);
}

/// The statement stream of one Makefile text.
pub open spec fn makefile_stmts(text: Seq<char>) -> Seq<StmtV> {
    read_all(
        MakeFileV {
            lines: crate::makefile::split_lines_from(text, 0),
            modules: Map::empty(),
            orphans: Map::empty(),
            pending: Seq::empty(),
        },
    )
}

/// Parse one Makefile's text and run the condition-stack machine over every
/// statement it yields: the directory's whole plan.
pub fn plan_makefile(init: &Conditions, text: &str) -> (r: Vec<DirAction>)
    ensures
        actions_seq(r@) == plan_spec(init@, makefile_stmts(text@)),
{
    let mut mf = MakeFile::parse(text);
    let mut stmts: Vec<MakeStmt> = Vec::new();
    proof {
        assert(stmts_seq(stmts@) =~= Seq::<StmtV>::empty());
        assert(makefile_stmts(text@) == stmts_seq(stmts@) + read_all(mf@));
    }
    loop
        invariant
            mf.wf(),
            makefile_stmts(text@) == stmts_seq(stmts@) + read_all(mf@),
        decreases mf@.lines.len(), pending_load(mf@.pending, mf@.orphans),
    {
        let ghost pre = mf@;
        let ghost stmts0 = stmts@;
        proof {
            lemma_mf_next_progress(pre);
        }
        match mf.next_stmt() {
            Some(st) => {
                proof {
                    assert(mf@ == step_state(mf_next(pre)));
                    assert(read_all(pre) == seq![st@] + read_all(mf@));
                }
                stmts.push(st);
                proof {
                    assert(stmts_seq(stmts@) =~= stmts_seq(stmts0) + seq![stmts@.last()@]);
                    assert(stmts_seq(stmts@) + read_all(mf@) =~= stmts_seq(stmts0) + read_all(
                        pre,
                    ));
                }
            },
            None => {
                proof {
                    assert(read_all(pre) =~= Seq::<StmtV>::empty());
                    assert(stmts_seq(stmts@) + read_all(pre) =~= stmts_seq(stmts@));
                }
                return process_statements(init, &stmts);
            },
        }
    }
}

/// The record stored under a path after merging a scan result into what was
/// there: sets union, a present module replaces the old one, and the
/// traversal conditions join the option set.
pub open spec fn merged_record(
    old_rec: Option<SourceDataV>,
    data: SourceDataV,
    conds: Set<Seq<char>>,
) -> SourceDataV {
    let base = match old_rec {
        Some(r) => r,
        None => SourceData::default_v(),
    };
    SourceDataV {
        config_opts: base.config_opts + data.config_opts + conds,
        compat_strs: base.compat_strs + data.compat_strs,
        module: match data.module {
            Some(m) => Some(m),
            None => base.module,
        },
    }
}

/// The source map after merging one scan result.
pub open spec fn merge_map(
    sources: Map<Seq<char>, SourceDataV>,
    path: Seq<char>,
    data: SourceDataV,
    conds: Set<Seq<char>>,
) -> Map<Seq<char>, SourceDataV> {
    sources.insert(
        path,
        merged_record(
            if sources.contains_key(path) {
                Some(sources[path])
            } else {
                None
            },
            data,
            conds,
        ),
    )
}

/// Merges into different source paths commute: the store's contents do not
/// depend on the order in which concurrent tasks deliver their records.
pub proof fn lemma_merge_commutes(
    sources: Map<Seq<char>, SourceDataV>,
    p1: Seq<char>,
    d1: SourceDataV,
    c1: Set<Seq<char>>,
    p2: Seq<char>,
    d2: SourceDataV,
    c2: Set<Seq<char>>,
)
    requires
        p1 != p2,
    ensures
        merge_map(merge_map(sources, p1, d1, c1), p2, d2, c2) == merge_map(
            merge_map(sources, p2, d2, c2),
            p1,
            d1,
            c1,
        ),
{
    assert(merge_map(merge_map(sources, p1, d1, c1), p2, d2, c2) =~= merge_map(
        merge_map(sources, p2, d2, c2),
        p1,
        d1,
        c1,
    ));
}

/// Two merges into the same path whose records carry no module data commute:
/// their option and compat sets union either way.
pub proof fn lemma_merge_same_path_commutes(
    sources: Map<Seq<char>, SourceDataV>,
    path: Seq<char>,
    d1: SourceDataV,
    c1: Set<Seq<char>>,
    d2: SourceDataV,
    c2: Set<Seq<char>>,
)
    requires
        d1.module is None,
        d2.module is None,
    ensures
        merge_map(merge_map(sources, path, d1, c1), path, d2, c2) == merge_map(
            merge_map(sources, path, d2, c2),
            path,
            d1,
            c1,
        ),
{
    let a = merge_map(merge_map(sources, path, d1, c1), path, d2, c2);
    let b = merge_map(merge_map(sources, path, d2, c2), path, d1, c1);
    assert(a[path].config_opts =~= b[path].config_opts);
    assert(a[path].compat_strs =~= b[path].compat_strs);
    assert(a[path] == b[path]);
    assert(a =~= b);
}

impl MetaData {
    /// Merge one scanned record into the store under `path`.
    pub fn merge_source(&mut self, path: &str, data: SourceData, conditions: &StrSet)
        requires
            old(self).wf(),
            data.wf(),
            conditions.wf(),
        ensures
            final(self).wf(),
            final(self)@.config_opts == old(self)@.config_opts,
            final(self)@.compat_strs == old(self)@.compat_strs,
            final(self)@.sources == merge_map(old(self)@.sources, path@, data@, conditions@),
    {
        let r = self.source_mut(path);
        r.add_config_opts(&data.config_opts);
        r.add_config_opts(conditions);
        r.add_compat_strs(&data.compat_strs);
        if data.module.is_some() {
            r.module = data.module;
        }
    }
}

} // verus!
