//! The Makefile statement reader: line classification, condition and element
//! extraction, and the module-composition resolution with its orphan queue.

use crate::metadata::{clone_string, strs_seq, StrMap};
use crate::strutil::{
    all_elem_chars, all_word_chars, chars_of, find_char_from, find_char_in, find_seq_from,
    find_seq_in, find_space, find_space_in, is_space_char, lskip_spaces, lskip_spaces_in,
    matches_at, range_all_elem, range_all_word, range_matches, rskip_char, rskip_char_in,
    rskip_keypad, rskip_keypad_in, rskip_spaces, rskip_spaces_in, str_eq, sub_chars, sub_string,
    trimmed,
};
use vstd::prelude::*;

verus! {

broadcast use crate::strutil::lemma_find_char_from_bounds, crate::strutil::lemma_find_seq_from_bounds, crate::strutil::lemma_find_space_bounds;

/// One recognised Makefile statement.
#[derive(Debug)]
pub enum MakeStmt {
    Var { prefix: String, conditions: Vec<String>, elements: Vec<String> },
    If { conditions: Vec<String> },
    ElseIf { conditions: Vec<String> },
    EndIf,
}

pub ghost enum StmtV {
    Var { prefix: Seq<char>, conditions: Seq<Seq<char>>, elements: Seq<Seq<char>> },
    If { conditions: Seq<Seq<char>> },
    ElseIf { conditions: Seq<Seq<char>> },
    EndIf,
}

impl View for MakeStmt {
    type V = StmtV;

    open spec fn view(&self) -> StmtV {
        match self {
            MakeStmt::Var { prefix, conditions, elements } => StmtV::Var {
                prefix: prefix@,
                conditions: strs_seq(conditions@),
                elements: strs_seq(elements@),
            },
            MakeStmt::If { conditions } => StmtV::If { conditions: strs_seq(conditions@) },
            MakeStmt::ElseIf { conditions } => StmtV::ElseIf { conditions: strs_seq(conditions@) },
            MakeStmt::EndIf => StmtV::EndIf,
        }
    }
}

/// What a single line parses to: a statement, nothing, or an unrecognised line.
pub ghost enum StmtSpec {
    Stmt(StmtV),
    Skip,
    Unrecognized,
}

/// An unrecognised Makefile line, reported with its trimmed text.
#[derive(Debug)]
pub struct MakeError {
    pub line: String,
}

/// The token that introduces a configuration condition.
pub open spec fn config_pat() -> Seq<char> {
    seq!['$', '(', 'C', 'O', 'N', 'F', 'I', 'G', '_']
}

/// The bare configuration prefix.
pub open spec fn config_key() -> Seq<char> {
    seq!['C', 'O', 'N', 'F', 'I', 'G', '_']
}

/// The conditions extracted from `s`, scanning from `i`: for every
/// `$(CONFIG_` occurrence, the trimmed text up to the next `)`, kept when it
/// is made of word characters only.
pub open spec fn conds_from(s: Seq<char>, i: int) -> Seq<Seq<char>>
    decreases s.len() - i,
{
    match find_seq_from(s, config_pat(), i) {
        None => Seq::empty(),
        Some(p) => {
            let j = p + 9;
            match find_char_from(s, ')', j, s.len() as int) {
                None => Seq::empty(),
                Some(k) => {
                    let x = lskip_spaces(s, j, k);
                    let y = rskip_spaces(s, x, k);
                    let rest = conds_from(s, j);
                    if all_word_chars(s, x, y) {
                        seq![s.subrange(x, y)] + rest
                    } else {
                        rest
                    }
                },
            }
        },
    }
}

pub open spec fn conds_of(s: Seq<char>) -> Seq<Seq<char>> {
    conds_from(s, 0)
}

/// The element a single whitespace-delimited token `[i, end)` yields, if any.
pub open spec fn elem_token(s: Seq<char>, i: int, end: int, subdir: bool) -> Option<Seq<char>> {
    let ends_slash = end - i >= 1 && s[end - 1] == '/';
    let ends_o = end - i >= 2 && s[end - 2] == '.' && s[end - 1] == 'o';
    if !subdir && !ends_slash && !ends_o {
        None
    } else {
        let y = rskip_char(s, i, end, '/');
        if y > i && s[i] == '-' {
            None
        } else if !all_elem_chars(s, i, y) {
            None
        } else {
            Some(s.subrange(i, y))
        }
    }
}

/// The elements extracted from `s`, token by token, starting at `i`.
pub open spec fn elems_from(s: Seq<char>, subdir: bool, i: int) -> Seq<Seq<char>>
    decreases s.len() - i + 1,
{
    if !(0 <= i <= s.len()) {
        Seq::empty()
    } else {
        let end = find_space(s, i);
        let kept = elem_token(s, i, end, subdir);
        let rest = if end < s.len() {
            elems_from(s, subdir, end + 1)
        } else {
            Seq::empty()
        };
        match kept {
            Some(t) => seq![t] + rest,
            None => rest,
        }
    }
}

pub open spec fn elements_of(pfx: Seq<char>, s: Seq<char>) -> Seq<Seq<char>> {
    elems_from(s, pfx == "subdir"@, 0)
}

/// The split point of a variable's left-hand side: the first `-` whose suffix
/// starts with `$(` or holds no further `-`.
pub open spec fn split_dash(var: Seq<char>, i: int) -> Option<int>
    decreases var.len() - i,
{
    match find_char_from(var, '-', i, var.len() as int) {
        None => None,
        Some(d) => {
            if matches_at(var, seq!['$', '('], d + 1) || find_char_from(
                var,
                '-',
                d + 1,
                var.len() as int,
            ) is None {
                Some(d)
            } else {
                split_dash(var, d + 1)
            }
        },
    }
}

/// The single condition of an `ifdef`/`ifndef`: the first
/// whitespace-delimited token after the keyword (which ends at `kw_end`),
/// with a leading `CONFIG_` stripped when present.
pub open spec fn cond_after(t: Seq<char>, kw_end: int) -> Seq<char> {
    let a = lskip_spaces(t, kw_end, t.len() as int);
    let b = find_space(t, a);
    if matches_at(t, config_key(), a) && a + 7 <= b {
        t.subrange(a + 7, b)
    } else {
        t.subrange(a, b)
    }
}

/// How one trimmed line is classified.
pub open spec fn classify(t: Seq<char>) -> StmtSpec {
    if t.len() == 0 || t[0] == '#' {
        StmtSpec::Skip
    } else if matches_at(t, "endif"@, 0) {
        StmtSpec::Stmt(StmtV::EndIf)
    } else if matches_at(t, "else "@, 0) {
        let r0 = find_space(t, 0) + 1;
        if matches_at(t, "ifdef "@, r0) || matches_at(t, "ifndef "@, r0) {
            StmtSpec::Stmt(StmtV::ElseIf { conditions: seq![cond_after(t, find_space(t, r0))] })
        } else if matches_at(t, "ifeq "@, r0) || matches_at(t, "ifneq "@, r0) {
            let c0 = find_space(t, r0) + 1;
            StmtSpec::Stmt(StmtV::ElseIf { conditions: conds_of(t.subrange(c0, t.len() as int)) })
        } else {
            StmtSpec::Unrecognized
        }
    } else if matches_at(t, "ifdef "@, 0) || matches_at(t, "ifndef "@, 0) {
        StmtSpec::Stmt(StmtV::If { conditions: seq![cond_after(t, find_space(t, 0))] })
    } else if matches_at(t, "ifeq "@, 0) || matches_at(t, "ifneq "@, 0) {
        let c0 = find_space(t, 0) + 1;
        StmtSpec::Stmt(StmtV::If { conditions: conds_of(t.subrange(c0, t.len() as int)) })
    } else {
        match find_char_from(t, '=', 0, t.len() as int) {
            None => StmtSpec::Unrecognized,
            Some(eq) => {
                let var = t.subrange(0, eq);
                match split_dash(var, 0) {
                    None => StmtSpec::Unrecognized,
                    Some(d) => {
                        let kp = rskip_keypad(var, d + 1, var.len() as int);
                        let conds = conds_of(var.subrange(d + 1, kp));
                        let ls = lskip_spaces(t, eq + 1, t.len() as int);
                        let elems = elements_of(
                            var.subrange(0, d),
                            t.subrange(ls, t.len() as int),
                        );
                        if elems.len() == 0 {
                            StmtSpec::Skip
                        } else {
                            StmtSpec::Stmt(
                                StmtV::Var {
                                    prefix: var.subrange(0, d),
                                    conditions: conds,
                                    elements: elems,
                                },
                            )
                        }
                    },
                }
            },
        }
    }
}

/// What one raw line parses to, after trimming.
pub open spec fn parse_stmt_spec(line: Seq<char>) -> StmtSpec {
    classify(trimmed(line))
}

/// The condition token after an `ifdef`/`ifndef` keyword ending at `kw_end`.
fn cond_token_after(tstr: &str, t: &Vec<char>, kw_end: usize) -> (r: String)
    requires
        t@ == tstr@,
        kw_end <= t@.len(),
    ensures
        r@ == cond_after(t@, kw_end as int),
{
    let n = t.len();
    let a = lskip_spaces_in(t, kw_end, n);
    let b = find_space_in(t, a);
    let pat_cfg = chars_of("CONFIG_");
    proof {
        reveal_strlit("CONFIG_");
        assert(pat_cfg@ =~= config_key());
    }
    if range_matches(t, a, &pat_cfg) && a + 7 <= b {
        sub_string(tstr, a + 7, b)
    } else {
        sub_string(tstr, a, b)
    }
}

impl MakeStmt {
    /// Extract the `$(CONFIG_…)` condition names occurring in `st`.
    pub fn parse_conditions(st: &str) -> (r: Vec<String>)
        ensures
            strs_seq(r@) == conds_of(st@),
    {
        let cs = chars_of(st);
        let pat = chars_of("$(CONFIG_");
        proof {
            reveal_strlit("$(CONFIG_");
            assert(pat@ =~= config_pat());
        }
        let mut acc: Vec<String> = Vec::new();
        let mut i: usize = 0;
        loop
            invariant
                cs@ == st@,
                pat@ == config_pat(),
                i <= cs@.len(),
                conds_of(st@) == strs_seq(acc@) + conds_from(cs@, i as int),
            decreases cs@.len() - i,
        {
            match find_seq_in(&cs, &pat, i) {
                None => {
                    proof {
                        assert(strs_seq(acc@) + conds_from(cs@, i as int) =~= strs_seq(acc@));
                    }
                    return acc;
                },
                Some(p) => {
                    let j = p + 9;
                    match find_char_in(&cs, ')', j, cs.len()) {
                        None => {
                            proof {
                                assert(strs_seq(acc@) + conds_from(cs@, i as int) =~= strs_seq(
                                    acc@,
                                ));
                            }
                            return acc;
                        },
                        Some(k) => {
                            let x = lskip_spaces_in(&cs, j, k);
                            let y = rskip_spaces_in(&cs, x, k);
                            let ghost acc_old = acc@;
                            if range_all_word(&cs, x, y) {
                                acc.push(sub_string(st, x, y));
                                proof {
                                    assert(strs_seq(acc@) =~= strs_seq(acc_old) + seq![
                                        cs@.subrange(x as int, y as int),
                                    ]);
                                }
                            }
                            proof {
                                assert(strs_seq(acc@) + conds_from(cs@, j as int) =~= strs_seq(
                                    acc_old,
                                ) + conds_from(cs@, i as int));
                            }
                            i = j;
                        },
                    }
                },
            }
        }
    }

    /// Extract the element tokens of a right-hand side `st` under prefix `pfx`.
    pub fn parse_elements(pfx: &str, st: &str) -> (r: Vec<String>)
        ensures
            strs_seq(r@) == elements_of(pfx@, st@),
    {
        let cs = chars_of(st);
        let subdir = str_eq(pfx, "subdir");
        let n = cs.len();
        let mut acc: Vec<String> = Vec::new();
        let mut i: usize = 0;
        loop
            invariant
                cs@ == st@,
                n == cs@.len(),
                i <= n,
                subdir == (pfx@ == "subdir"@),
                elements_of(pfx@, st@) == strs_seq(acc@) + elems_from(cs@, subdir, i as int),
            decreases n + 1 - i,
        {
            let end = find_space_in(&cs, i);
            let ghost acc_old = acc@;
            let ends_slash = end - i >= 1 && cs[end - 1] == '/';
            let ends_o = end - i >= 2 && cs[end - 2] == '.' && cs[end - 1] == 'o';
            if subdir || ends_slash || ends_o {
                let y = rskip_char_in(&cs, i, end, '/');
                let leading_dash = y > i && cs[i] == '-';
                if !leading_dash && range_all_elem(&cs, i, y) {
                    acc.push(sub_string(st, i, y));
                    proof {
                        assert(strs_seq(acc@) =~= strs_seq(acc_old) + seq![
                            cs@.subrange(i as int, y as int),
                        ]);
                    }
                }
            }
            if end >= n {
                proof {
                    assert(strs_seq(acc@) =~= strs_seq(acc_old) + elems_from(
                        cs@,
                        subdir,
                        i as int,
                    ));
                }
                return acc;
            }
            proof {
                assert(strs_seq(acc@) + elems_from(cs@, subdir, end + 1) =~= strs_seq(acc_old)
                    + elems_from(cs@, subdir, i as int));
            }
            i = end + 1;
        }
    }

    /// Classify one raw line: a statement, `None` for lines carrying nothing,
    /// or an error holding the unrecognised (trimmed) text.
    #[verifier::rlimit(100)]
    pub fn parse(line: &str) -> (r: Result<Option<MakeStmt>, MakeError>)
        ensures
            match r {
                Ok(Some(st)) => parse_stmt_spec(line@) == StmtSpec::Stmt(st@),
                Ok(None) => parse_stmt_spec(line@) == StmtSpec::Skip,
                Err(e) => parse_stmt_spec(line@) == StmtSpec::Unrecognized && e.line@ == trimmed(
                    line@,
                ),
            },
    {
        let cs = chars_of(line);
        let a = lskip_spaces_in(&cs, 0, cs.len());
        let b = rskip_spaces_in(&cs, a, cs.len());
        let tstr = sub_string(line, a, b);
        let t = chars_of(tstr.as_str());
        proof {
            assert(t@ == trimmed(line@));
        }
        let n = t.len();
        if n == 0 {
            return Ok(None);
        }
        if t[0] == '#' {
            return Ok(None);
        }
        let pat_endif = chars_of("endif");
        if range_matches(&t, 0, &pat_endif) {
            return Ok(Some(MakeStmt::EndIf));
        }
        let pat_else = chars_of("else ");
        let pat_ifdef = chars_of("ifdef ");
        let pat_ifndef = chars_of("ifndef ");
        let pat_ifeq = chars_of("ifeq ");
        let pat_ifneq = chars_of("ifneq ");
        if range_matches(&t, 0, &pat_else) {
            proof {
                reveal_strlit("else ");
                crate::strutil::lemma_matches_at_index(t@, "else "@, 0, 4);
                assert(t@[4] == ' ');
                crate::strutil::lemma_find_space_le(t@, 0, 4);
            }
            let fs = find_space_in(&t, 0);
            let r0 = fs + 1;
            let d1 = range_matches(&t, r0, &pat_ifdef);
            let d2 = range_matches(&t, r0, &pat_ifndef);
            if d1 || d2 {
                let fs2 = find_space_in(&t, r0);
                let cond = cond_token_after(tstr.as_str(), &t, fs2);
                let mut conditions: Vec<String> = Vec::new();
                conditions.push(cond);
                proof {
                    assert(strs_seq(conditions@) =~= seq![cond_after(t@, fs2 as int)]);
                }
                return Ok(Some(MakeStmt::ElseIf { conditions }));
            } else {
                let e1 = range_matches(&t, r0, &pat_ifeq);
                let e2 = range_matches(&t, r0, &pat_ifneq);
                if e1 || e2 {
                    proof {
                        reveal_strlit("ifeq ");
                        reveal_strlit("ifneq ");
                        if e1 {
                            crate::strutil::lemma_matches_at_index(t@, "ifeq "@, r0 as int, 4);
                            assert(t@[r0 + 4] == ' ');
                            crate::strutil::lemma_find_space_le(t@, r0 as int, r0 + 4);
                        } else {
                            crate::strutil::lemma_matches_at_index(t@, "ifneq "@, r0 as int, 5);
                            assert(t@[r0 + 5] == ' ');
                            crate::strutil::lemma_find_space_le(t@, r0 as int, r0 + 5);
                        }
                    }
                    let fs2 = find_space_in(&t, r0);
                    let rest = sub_string(tstr.as_str(), fs2 + 1, n);
                    let conditions = Self::parse_conditions(rest.as_str());
                    return Ok(Some(MakeStmt::ElseIf { conditions }));
                } else {
                    return Err(MakeError { line: tstr });
                }
            }
        }
        let d1 = range_matches(&t, 0, &pat_ifdef);
        let d2 = range_matches(&t, 0, &pat_ifndef);
        if d1 || d2 {
            let fs2 = find_space_in(&t, 0);
            let cond = cond_token_after(tstr.as_str(), &t, fs2);
            let mut conditions: Vec<String> = Vec::new();
            conditions.push(cond);
            proof {
                assert(strs_seq(conditions@) =~= seq![cond_after(t@, fs2 as int)]);
            }
            return Ok(Some(MakeStmt::If { conditions }));
        }
        let e1 = range_matches(&t, 0, &pat_ifeq);
        let e2 = range_matches(&t, 0, &pat_ifneq);
        if e1 || e2 {
            proof {
                reveal_strlit("ifeq ");
                reveal_strlit("ifneq ");
                if e1 {
                    crate::strutil::lemma_matches_at_index(t@, "ifeq "@, 0, 4);
                    assert(t@[4] == ' ');
                    crate::strutil::lemma_find_space_le(t@, 0, 4);
                } else {
                    crate::strutil::lemma_matches_at_index(t@, "ifneq "@, 0, 5);
                    assert(t@[5] == ' ');
                    crate::strutil::lemma_find_space_le(t@, 0, 5);
                }
            }
            let fs2 = find_space_in(&t, 0);
            let rest = sub_string(tstr.as_str(), fs2 + 1, n);
            let conditions = Self::parse_conditions(rest.as_str());
            return Ok(Some(MakeStmt::If { conditions }));
        }
        match find_char_in(&t, '=', 0, n) {
            None => Err(MakeError { line: tstr }),
            Some(eq) => {
                let var = sub_chars(&t, 0, eq);
                match split_dash_in(&var, 0) {
                    None => Err(MakeError { line: tstr }),
                    Some(d) => {
                        let kp = rskip_keypad_in(&var, d + 1, var.len());
                        let key_str = sub_string(tstr.as_str(), d + 1, kp);
                        proof {
                            assert(t@.subrange(d + 1, kp as int) =~= var@.subrange(
                                d + 1,
                                kp as int,
                            ));
                        }
                        let conditions = Self::parse_conditions(key_str.as_str());
                        let pfx_str = sub_string(tstr.as_str(), 0, d);
                        proof {
                            assert(t@.subrange(0, d as int) =~= var@.subrange(0, d as int));
                        }
                        let ls = lskip_spaces_in(&t, eq + 1, n);
                        let val_str = sub_string(tstr.as_str(), ls, n);
                        let elements = Self::parse_elements(pfx_str.as_str(), val_str.as_str());
                        if elements.len() == 0 {
                            return Ok(None);
                        }
                        Ok(Some(MakeStmt::Var { prefix: pfx_str, conditions, elements }))
                    },
                }
            },
        }
    }
}

/// The first `-` in `var` (from `from`) whose suffix starts with `$(` or
/// holds no further `-`.
pub fn split_dash_in(var: &Vec<char>, from: usize) -> (r: Option<usize>)
    ensures
        match r {
            Some(d) => Some(d as int) == split_dash(var@, from as int) && d < var@.len(),
            None => split_dash(var@, from as int) is None,
        },
{
    let n = var.len();
    let mut pat_dp: Vec<char> = Vec::new();
    pat_dp.push('$');
    pat_dp.push('(');
    proof {
        assert(pat_dp@ =~= seq!['$', '(']);
    }
    let mut i = from;
    loop
        invariant
            n == var@.len(),
            pat_dp@ == seq!['$', '('],
            split_dash(var@, from as int) == split_dash(var@, i as int),
        decreases n + 1 - i,
    {
        match find_char_in(var, '-', i, n) {
            None => {
                return None;
            },
            Some(d) => {
                let starts_dp = range_matches(var, d + 1, &pat_dp);
                let more = find_char_in(var, '-', d + 1, n);
                if starts_dp || more.is_none() {
                    return Some(d);
                }
                i = d + 1;
            },
        }
    }
}

/// A list of condition names, used as the composition table's value.
#[derive(Debug)]
pub struct CondList {
    pub items: Vec<String>,
}

impl View for CondList {
    type V = Seq<Seq<char>>;

    open spec fn view(&self) -> Seq<Seq<char>> {
        strs_seq(self.items@)
    }
}

/// A buffered Var statement waiting for its composition root.
#[derive(Debug)]
pub struct Orphan {
    pub elements: Vec<String>,
    pub conditions: Vec<String>,
}

pub ghost struct OrphanV {
    pub elements: Seq<Seq<char>>,
    pub conditions: Seq<Seq<char>>,
}

impl View for Orphan {
    type V = OrphanV;

    open spec fn view(&self) -> OrphanV {
        OrphanV { elements: strs_seq(self.elements@), conditions: strs_seq(self.conditions@) }
    }
}

/// The pending statements buffered under one prefix, oldest first.
#[derive(Debug)]
pub struct OrphanQueue {
    pub items: Vec<Orphan>,
}

impl View for OrphanQueue {
    type V = Seq<OrphanV>;

    open spec fn view(&self) -> Seq<OrphanV> {
        self.items@.map_values(|o: Orphan| o@)
    }
}

/// The lines of `s`, separated at `\n`, a `\r` before the separator dropped.
pub open spec fn split_lines_from(s: Seq<char>, i: int) -> Seq<Seq<char>>
    decreases s.len() - i,
{
    if !(0 <= i < s.len()) {
        Seq::empty()
    } else {
        match find_char_from(s, '\n', i, s.len() as int) {
            Some(k) => {
                let e = if k > i && s[k - 1] == '\r' {
                    k - 1
                } else {
                    k
                };
                seq![s.subrange(i, e)] + split_lines_from(s, k + 1)
            },
            None => seq![s.subrange(i, s.len() as int)],
        }
    }
}

/// Split a text into its lines, as the reader sees them.
pub fn split_text_lines(text: &str) -> (r: Vec<String>)
    ensures
        strs_seq(r@) == split_lines_from(text@, 0),
{
    let cs = chars_of(text);
    let n = cs.len();
    let mut lines: Vec<String> = Vec::new();
    let mut i: usize = 0;
    while i < n
        invariant
            cs@ == text@,
            n == cs@.len(),
            i <= n,
            split_lines_from(text@, 0) == strs_seq(lines@) + split_lines_from(text@, i as int),
        decreases n - i,
    {
        let ghost lines_old = lines@;
        match find_char_in(&cs, '\n', i, n) {
            Some(k) => {
                let e = if k > i && cs[k - 1] == '\r' {
                    k - 1
                } else {
                    k
                };
                lines.push(sub_string(text, i, e));
                proof {
                    assert(strs_seq(lines@) =~= strs_seq(lines_old) + seq![
                        text@.subrange(i as int, e as int),
                    ]);
                    assert(strs_seq(lines@) + split_lines_from(text@, k + 1) =~= strs_seq(
                        lines_old,
                    ) + split_lines_from(text@, i as int));
                }
                i = k + 1;
            },
            None => {
                lines.push(sub_string(text, i, n));
                proof {
                    assert(strs_seq(lines@) =~= strs_seq(lines_old) + seq![
                        text@.subrange(i as int, n as int),
                    ]);
                    assert(strs_seq(lines@) + split_lines_from(text@, n as int) =~= strs_seq(
                        lines_old,
                    ) + split_lines_from(text@, i as int));
                }
                i = n;
            },
        }
    }
    proof {
        assert(split_lines_from(text@, n as int) =~= Seq::<Seq<char>>::empty());
        assert(strs_seq(lines@) =~= strs_seq(lines@) + split_lines_from(text@, n as int));
    }
    lines
}

/// Whether `p` is a composition root prefix.
pub open spec fn root_prefix(p: Seq<char>) -> bool {
    p == "obj"@ || p == "lib"@ || p == "subdir"@ || p == "core"@ || p == "drivers"@
}

pub fn is_root(p: &str) -> (r: bool)
    ensures
        r == root_prefix(p@),
{
    str_eq(p, "obj") || str_eq(p, "lib") || str_eq(p, "subdir") || str_eq(p, "core") || str_eq(
        p,
        "drivers",
    )
}

/// Record `elems[e..]` of a root Var into the composition table, queueing
/// every recorded module that already has orphans, in element order.
pub open spec fn root_fold(
    modules: Map<Seq<char>, Seq<Seq<char>>>,
    pending: Seq<Seq<char>>,
    orphans: Map<Seq<char>, Seq<OrphanV>>,
    conds: Seq<Seq<char>>,
    elems: Seq<Seq<char>>,
    e: int,
) -> (Map<Seq<char>, Seq<Seq<char>>>, Seq<Seq<char>>)
    decreases elems.len() - e,
{
    if !(0 <= e < elems.len()) {
        (modules, pending)
    } else {
        let el = elems[e];
        if el.len() >= 2 && el[el.len() - 2] == '.' && el[el.len() - 1] == 'o' {
            let m = el.subrange(0, el.len() - 2);
            let pending2 = if orphans.contains_key(m) {
                pending.push(m)
            } else {
                pending
            };
            root_fold(modules.insert(m, conds), pending2, orphans, conds, elems, e + 1)
        } else {
            root_fold(modules, pending, orphans, conds, elems, e + 1)
        }
    }
}

/// The state after one pull and the statement it yields, if any.
pub ghost struct MfStep {
    pub lines: Seq<Seq<char>>,
    pub modules: Map<Seq<char>, Seq<Seq<char>>>,
    pub orphans: Map<Seq<char>, Seq<OrphanV>>,
    pub pending: Seq<Seq<char>>,
    pub stmt: Option<StmtV>,
}

/// Read lines until a statement comes out, resolving compositions and
/// buffering orphans on the way.
pub open spec fn mf_read(
    lines: Seq<Seq<char>>,
    full: Option<Seq<char>>,
    modules: Map<Seq<char>, Seq<Seq<char>>>,
    orphans: Map<Seq<char>, Seq<OrphanV>>,
) -> MfStep
    decreases lines.len(),
{
    if lines.len() == 0 {
        MfStep { lines, modules, orphans, pending: Seq::empty(), stmt: None }
    } else {
        let line = lines[0];
        let rest = lines.drop_first();
        if line.len() > 0 && line[line.len() - 1] == '\\' {
            let before = line.subrange(0, line.len() - 1);
            let full2 = match full {
                Some(f) => Some(f + before),
                None => Some(before),
            };
            mf_read(rest, full2, modules, orphans)
        } else {
            let joined = match full {
                Some(f) => f + line,
                None => line,
            };
            match parse_stmt_spec(joined) {
                StmtSpec::Skip => mf_read(rest, None, modules, orphans),
                StmtSpec::Unrecognized => mf_read(rest, None, modules, orphans),
                StmtSpec::Stmt(stmt) => match stmt {
                    StmtV::Var { prefix, conditions, elements } => {
                        if root_prefix(prefix) {
                            let folded = root_fold(
                                modules,
                                Seq::empty(),
                                orphans,
                                conditions,
                                elements,
                                0,
                            );
                            MfStep {
                                lines: rest,
                                modules: folded.0,
                                orphans,
                                pending: folded.1,
                                stmt: Some(stmt),
                            }
                        } else if modules.contains_key(prefix) {
                            MfStep {
                                lines: rest,
                                modules,
                                orphans,
                                pending: Seq::empty(),
                                stmt: Some(
                                    StmtV::Var {
                                        prefix,
                                        conditions: conditions + modules[prefix],
                                        elements,
                                    },
                                ),
                            }
                        } else {
                            let q = if orphans.contains_key(prefix) {
                                orphans[prefix]
                            } else {
                                Seq::empty()
                            };
                            mf_read(
                                rest,
                                None,
                                modules,
                                orphans.insert(prefix, q.push(OrphanV { elements, conditions })),
                            )
                        }
                    },
                    _ => MfStep {
                        lines: rest,
                        modules,
                        orphans,
                        pending: Seq::empty(),
                        stmt: Some(stmt),
                    },
                },
            }
        }
    }
}

/// One pull on the reader: drain the orphans of every pending prefix, oldest
/// prefix first, then read lines.
pub open spec fn mf_next(st: MakeFileV) -> MfStep
    decreases st.pending.len(),
{
    if st.pending.len() == 0 {
        mf_read(st.lines, None, st.modules, st.orphans)
    } else {
        let pfx = st.pending[0];
        if st.modules.contains_key(pfx) && st.orphans.contains_key(pfx) {
            let q = st.orphans[pfx];
            if q.len() > 0 {
                let o = q[0];
                MfStep {
                    lines: st.lines,
                    modules: st.modules,
                    orphans: st.orphans.insert(pfx, q.drop_first()),
                    pending: st.pending,
                    stmt: Some(
                        StmtV::Var {
                            prefix: pfx,
                            conditions: o.conditions + st.modules[pfx],
                            elements: o.elements,
                        },
                    ),
                }
            } else {
                mf_next(
                    MakeFileV {
                        lines: st.lines,
                        modules: st.modules,
                        orphans: st.orphans.remove(pfx),
                        pending: st.pending.drop_first(),
                    },
                )
            }
        } else {
            mf_next(
                MakeFileV {
                    lines: st.lines,
                    modules: st.modules,
                    orphans: st.orphans,
                    pending: st.pending.drop_first(),
                },
            )
        }
    }
}

/// The statement reader over one Makefile's text.
#[derive(Debug)]
pub struct MakeFile {
    pub lines: Vec<String>,
    pub pos: usize,
    pub modules: StrMap<CondList>,
    pub orphans: StrMap<OrphanQueue>,
    pub pending: Vec<String>,
}

pub ghost struct MakeFileV {
    pub lines: Seq<Seq<char>>,
    pub modules: Map<Seq<char>, Seq<Seq<char>>>,
    pub orphans: Map<Seq<char>, Seq<OrphanV>>,
    pub pending: Seq<Seq<char>>,
}

impl View for MakeFile {
    type V = MakeFileV;

    open spec fn view(&self) -> MakeFileV {
        MakeFileV {
            lines: strs_seq(self.lines@).skip(self.pos as int),
            modules: self.modules@,
            orphans: self.orphans@,
            pending: strs_seq(self.pending@),
        }
    }
}

/// Append clones of `src`'s strings to `dst`.
pub fn append_all(dst: &mut Vec<String>, src: &Vec<String>)
    ensures
        strs_seq(final(dst)@) == strs_seq(old(dst)@) + strs_seq(src@),
{
    let n = src.len();
    let mut i: usize = 0;
    while i < n
        invariant
            n == src@.len(),
            i <= n,
            strs_seq(dst@) == strs_seq(old(dst)@) + strs_seq(src@).take(i as int),
        decreases n - i,
    {
        let ghost dst_prev = dst@;
        dst.push(clone_string(&src[i]));
        proof {
            assert(strs_seq(dst@) =~= strs_seq(dst_prev) + seq![src@[i as int]@]);
            assert(strs_seq(src@)[i as int] == src@[i as int]@);
            assert(strs_seq(src@).take(i + 1) =~= strs_seq(src@).take(i as int) + seq![
                src@[i as int]@,
            ]);
            assert(strs_seq(dst@) =~= strs_seq(old(dst)@) + strs_seq(src@).take(i + 1));
        }
        i = i + 1;
    }
    proof {
        assert(strs_seq(dst@) =~= strs_seq(old(dst)@) + strs_seq(src@));
    }
}

/// Clones of all strings in `v`.
pub fn clone_strs(v: &Vec<String>) -> (r: Vec<String>)
    ensures
        strs_seq(r@) == strs_seq(v@),
{
    let mut r: Vec<String> = Vec::new();
    append_all(&mut r, v);
    proof {
        assert(strs_seq(r@) =~= strs_seq(v@));
    }
    r
}

impl MakeFile {
    pub open spec fn wf(&self) -> bool {
        self.modules.map_wf() && self.orphans.map_wf() && self.pos <= self.lines@.len()
    }

    /// A reader over the text of one Makefile, with empty parse state.
    pub fn parse(text: &str) -> (r: MakeFile)
        ensures
            r.wf(),
            r@.lines == split_lines_from(text@, 0),
            r@.modules == Map::<Seq<char>, Seq<Seq<char>>>::empty(),
            r@.orphans == Map::<Seq<char>, Seq<OrphanV>>::empty(),
            r@.pending == Seq::<Seq<char>>::empty(),
    {
        let lines = split_text_lines(text);
        let r = MakeFile {
            lines,
            pos: 0,
            modules: StrMap::new(),
            orphans: StrMap::new(),
            pending: Vec::new(),
        };
        proof {
            assert(strs_seq(r.lines@).skip(0) =~= strs_seq(r.lines@));
            assert(r@.pending =~= Seq::<Seq<char>>::empty());
        }
        r
    }

    /// Pull the next statement: a buffered orphan first, then the next
    /// recognisable line, with composition conditions appended.
    #[verifier::rlimit(100)]
    pub fn next_stmt(&mut self) -> (r: Option<MakeStmt>)
        requires
            old(self).wf(),
        ensures
            final(self).wf(),
            ({
                let step = mf_next(old(self)@);
                final(self)@.lines == step.lines && final(self)@.modules == step.modules
                    && final(self)@.orphans == step.orphans && final(self)@.pending == step.pending
                    && (match r {
                    Some(st) => step.stmt == Some(st@),
                    None => step.stmt is None,
                })
            }),
    {
        while self.pending.len() > 0
            invariant
                self.wf(),
                mf_next(self@) == mf_next(old(self)@),
            decreases self.pending@.len(),
        {
            let ghost pre = self@;
            let pfx = clone_string(&self.pending[0]);
            proof {
                assert(pre.pending[0] == pfx@);
            }
            let has_mod = self.modules.contains_key(pfx.as_str());
            let qi = self.orphans.find_key(pfx.as_str());
            if has_mod && qi.is_some() {
                let qidx = match qi {
                    Some(x) => x,
                    None => 0,
                };
                let qlen = self.orphans.vals[qidx].items.len();
                if qlen > 0 {
                    let ghost okeys = self.orphans.keys@;
                    let ghost ovals = self.orphans.vals@;
                    proof {
                        crate::metadata::lemma_entry_update::<OrphanQueue>(
                            okeys,
                            ovals,
                            qidx as int,
                        );
                        crate::metadata::lemma_kv_index(okeys, ovals, qidx as int);
                    }
                    let q = &mut self.orphans.vals[qidx];
                    let o = q.items.remove(0);
                    proof {
                        assert(q@ =~= ovals[qidx as int]@.drop_first());
                    }
                    let mut conditions = o.conditions;
                    let elements = o.elements;
                    match self.modules.get(pfx.as_str()) {
                        Some(mc) => {
                            append_all(&mut conditions, &mc.items);
                        },
                        None => {},
                    }
                    return Some(MakeStmt::Var { prefix: pfx, conditions, elements });
                } else {
                    proof {
                        crate::metadata::lemma_kv_index(
                            self.orphans.keys@,
                            self.orphans.vals@,
                            qidx as int,
                        );
                        assert(self.orphans@[pfx@].len() == 0);
                    }
                    self.orphans.remove(pfx.as_str());
                    self.pending.remove(0);
                    proof {
                        assert(strs_seq(self.pending@) =~= pre.pending.drop_first());
                        assert(mf_next(self@) == mf_next(pre));
                    }
                }
            } else {
                self.pending.remove(0);
                proof {
                    assert(strs_seq(self.pending@) =~= pre.pending.drop_first());
                    assert(mf_next(self@) == mf_next(pre));
                }
            }
        }
        proof {
            assert(self@.pending.len() == 0);
            assert(mf_next(old(self)@) == mf_read(
                self@.lines,
                None,
                self.modules@,
                self.orphans@,
            ));
        }
        let ghost target = mf_next(old(self)@);
        let mut full: Option<String> = None;
        loop
            invariant
                self.wf(),
                self@.pending == Seq::<Seq<char>>::empty(),
                mf_read(
                    self@.lines,
                    (match full {
                        Some(ref f) => Some(f@),
                        None => None,
                    }),
                    self.modules@,
                    self.orphans@,
                ) == target,
                target == mf_next(old(self)@),
            decreases self.lines@.len() - self.pos,
        {
            let ghost rem0 = self@.lines;
            if self.pos >= self.lines.len() {
                proof {
                    assert(rem0.len() == 0);
                }
                return None;
            }
            let line = clone_string(&self.lines[self.pos]);
            self.pos = self.pos + 1;
            proof {
                assert(rem0[0] == line@);
                assert(rem0.drop_first() =~= self@.lines);
            }
            let lc = chars_of(line.as_str());
            if lc.len() > 0 && lc[lc.len() - 1] == '\\' {
                let before = sub_string(line.as_str(), 0, lc.len() - 1);
                full = match full {
                    Some(f) => Some(f.concat(before.as_str())),
                    None => Some(before),
                };
                continue;
            }
            let joined: String = match full {
                Some(f) => f.concat(line.as_str()),
                None => line,
            };
            full = None;
            let parsed = MakeStmt::parse(joined.as_str());
            match parsed {
                Ok(Some(stmt)) => {
                    match stmt {
                        MakeStmt::Var { prefix, conditions, elements } => {
                            if is_root(prefix.as_str()) {
                                let ghost modules0 = self.modules@;
                                let ghost orphans0 = self.orphans@;
                                let ghost condsv = strs_seq(conditions@);
                                let ghost elemsv = strs_seq(elements@);
                                let ghost linesv = self@.lines;
                                let en = elements.len();
                                let mut e: usize = 0;
                                while e < en
                                    invariant
                                        self.wf(),
                                        en == elements@.len(),
                                        e <= en,
                                        self.orphans@ == orphans0,
                                        self@.lines == linesv,
                                        condsv == strs_seq(conditions@),
                                        elemsv == strs_seq(elements@),
                                        root_fold(
                                            modules0,
                                            Seq::empty(),
                                            orphans0,
                                            condsv,
                                            elemsv,
                                            0,
                                        ) == root_fold(
                                            self.modules@,
                                            strs_seq(self.pending@),
                                            orphans0,
                                            condsv,
                                            elemsv,
                                            e as int,
                                        ),
                                    decreases en - e,
                                {
                                    let elc = chars_of(elements[e].as_str());
                                    let el_len = elc.len();
                                    let dot_o = el_len >= 2 && elc[el_len - 2] == '.'
                                        && elc[el_len - 1] == 'o';
                                    if dot_o {
                                        let m = sub_string(elements[e].as_str(), 0, el_len - 2);
                                        if self.orphans.contains_key(m.as_str()) {
                                            let ghost pend_prev = strs_seq(self.pending@);
                                            self.pending.push(clone_string(&m));
                                            proof {
                                                assert(strs_seq(self.pending@) =~= pend_prev.push(
                                                    m@,
                                                ));
                                            }
                                        }
                                        self.modules.insert(
                                            m,
                                            CondList { items: clone_strs(&conditions) },
                                        );
                                    }
                                    proof {
                                        assert(elemsv[e as int] == elements@[e as int]@);
                                    }
                                    e = e + 1;
                                }
                                return Some(MakeStmt::Var { prefix, conditions, elements });
                            } else {
                                let midx = self.modules.find_key(prefix.as_str());
                                match midx {
                                    Some(ix) => {
                                        proof {
                                            crate::metadata::lemma_kv_index(
                                                self.modules.keys@,
                                                self.modules.vals@,
                                                ix as int,
                                            );
                                        }
                                        let mut conditions = conditions;
                                        append_all(&mut conditions, &self.modules.vals[ix].items);
                                        return Some(
                                            MakeStmt::Var { prefix, conditions, elements },
                                        );
                                    },
                                    None => {
                                        let ghost orphans_before = self.orphans@;
                                        let ghost ov = OrphanV {
                                            elements: strs_seq(elements@),
                                            conditions: strs_seq(conditions@),
                                        };
                                        let entry = self.orphans.entry_mut(
                                            prefix.as_str(),
                                            OrphanQueue { items: Vec::new() },
                                        );
                                        entry.items.push(Orphan { elements, conditions });
                                        proof {
                                            assert(self.orphans@[prefix@] =~= (
                                            if orphans_before.contains_key(prefix@) {
                                                orphans_before[prefix@]
                                            } else {
                                                Seq::<OrphanV>::empty()
                                            }).push(ov));
                                        }
                                    },
                                }
                            }
                        },
                        other => {
                            return Some(other);
                        },
                    }
                },
                Ok(None) => {},
                Err(_) => {},
            }
        }
    }
}

} // verus!
