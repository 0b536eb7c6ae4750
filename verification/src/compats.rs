//! A lightweight line scanner that pulls `.compatible = "…"` strings out of
//! a C text without lexing it; the state survives line breaks, the slice
//! positions do not.

use crate::makefile::{split_lines_from, split_text_lines};
use crate::metadata::StrSet;
use crate::strutil::{
    chars_of, find_char_from, find_char_in, find_seq_from, find_seq_in, lskip_spaces,
    lskip_spaces_in, sub_string,
};
use vstd::prelude::*;

verus! {

broadcast use crate::strutil::lemma_find_char_from_bounds, crate::strutil::lemma_find_seq_from_bounds, crate::strutil::lemma_lskip_spaces_ge;

/// What the scanner is looking for next.
#[derive(Debug, Clone, Copy, PartialEq, Eq, Structural)]
pub enum CFind {
    Compat,
    Assign,
    Str,
}

/// The token that opens a compatible-string initialiser.
pub open spec fn compat_pat() -> Seq<char> {
    seq!['.', 'c', 'o', 'm', 'p', 'a', 't', 'i', 'b', 'l', 'e']
}

/// Scan the rest of one line from position `i` in state `st`.
pub open spec fn line_scan(s: Seq<char>, i: int, st: CFind, acc: Set<Seq<char>>) -> (CFind, Set<
    Seq<char>,
>)
    decreases s.len() - i,
{
    match st {
        CFind::Compat => {
            match find_seq_from(s, compat_pat(), i) {
                None => (CFind::Compat, acc),
                Some(p) => {
                    let i2 = lskip_spaces(s, p + 11, s.len() as int);
                    line_scan(s, i2, CFind::Assign, acc)
                },
            }
        },
        CFind::Assign => {
            if 0 <= i < s.len() && s[i] == '=' {
                let i2 = lskip_spaces(s, i + 1, s.len() as int);
                line_scan(s, i2, CFind::Str, acc)
            } else {
                (CFind::Assign, acc)
            }
        },
        CFind::Str => {
            if 0 <= i < s.len() && s[i] == '"' {
                match find_char_from(s, '"', i + 1, s.len() as int) {
                    Some(q) => {
                        let acc2 = if q > i + 1 {
                            acc.insert(s.subrange(i + 1, q))
                        } else {
                            acc
                        };
                        line_scan(s, q + 1, CFind::Compat, acc2)
                    },
                    None => line_scan(s, i + 1, CFind::Compat, acc),
                }
            } else {
                (CFind::Compat, acc)
            }
        },
    }
}

/// Fold the line scanner over the lines from `k` on.
pub open spec fn lines_scan(lines: Seq<Seq<char>>, k: int, st: CFind, acc: Set<Seq<char>>) -> (
    CFind,
    Set<Seq<char>>,
)
    decreases lines.len() - k,
{
    if !(0 <= k < lines.len()) {
        (st, acc)
    } else {
        let s = lines[k];
        let start = lskip_spaces(s, 0, s.len() as int);
        let next = line_scan(s, start, st, acc);
        lines_scan(lines, k + 1, next.0, next.1)
    }
}

/// All compatible strings the scanner finds in a text.
pub open spec fn compats_of(text: Seq<char>) -> Set<Seq<char>> {
    lines_scan(split_lines_from(text, 0), 0, CFind::Compat, Set::empty()).1
}

/// The compatible strings found in one C text.
#[derive(Debug)]
pub struct Compats {
    pub compats: StrSet,
}

impl View for Compats {
    type V = Set<Seq<char>>;

    open spec fn view(&self) -> Set<Seq<char>> {
        self.compats@
    }
}

impl Compats {
    /// Scan a source text for `.compatible = "…"` strings.
    pub fn from_source(text: &str) -> (r: Compats)
        ensures
            r.compats.wf(),
            r@ == compats_of(text@),
    {
        let lines = split_text_lines(text);
        let pat = chars_of(".compatible");
        proof {
            reveal_strlit(".compatible");
            assert(pat@ =~= compat_pat());
        }
        let ghost linesv = crate::metadata::strs_seq(lines@);
        let mut acc = StrSet::new();
        let mut st = CFind::Compat;
        let nl = lines.len();
        let mut k: usize = 0;
        while k < nl
            invariant
                linesv == crate::metadata::strs_seq(lines@),
                pat@ == compat_pat(),
                nl == lines@.len(),
                k <= nl,
                acc.wf(),
                lines_scan(linesv, 0, CFind::Compat, Set::empty()) == lines_scan(
                    linesv,
                    k as int,
                    st,
                    acc@,
                ),
            decreases nl - k,
        {
            let line = &lines[k];
            let cs = chars_of(line.as_str());
            let n = cs.len();
            let ghost sv = cs@;
            let ghost st0 = st;
            let ghost acc0 = acc@;
            proof {
                assert(linesv[k as int] == sv);
            }
            let mut i = lskip_spaces_in(&cs, 0, n);
            let ghost start0 = i as int;
            loop
                invariant_except_break
                    sv == cs@,
                    cs@ == line@,
                    pat@ == compat_pat(),
                    n == cs@.len(),
                    i <= n,
                    acc.wf(),
                    line_scan(sv, start0, st0, acc0) == line_scan(sv, i as int, st, acc@),
                ensures
                    acc.wf(),
                    line_scan(sv, start0, st0, acc0) == (st, acc@),
                decreases n - i,
            {
                match st {
                    CFind::Compat => {
                        match find_seq_in(&cs, &pat, i) {
                            None => {
                                break ;
                            },
                            Some(p) => {
                                i = lskip_spaces_in(&cs, p + 11, n);
                                st = CFind::Assign;
                            },
                        }
                    },
                    CFind::Assign => {
                        if i < n && cs[i] == '=' {
                            i = lskip_spaces_in(&cs, i + 1, n);
                            st = CFind::Str;
                        } else {
                            break ;
                        }
                    },
                    CFind::Str => {
                        if i < n && cs[i] == '"' {
                            match find_char_in(&cs, '"', i + 1, n) {
                                Some(q) => {
                                    if q > i + 1 {
                                        acc.insert(sub_string(line.as_str(), i + 1, q));
                                    }
                                    i = q + 1;
                                    st = CFind::Compat;
                                },
                                None => {
                                    i = i + 1;
                                    st = CFind::Compat;
                                },
                            }
                        } else {
                            st = CFind::Compat;
                            break ;
                        }
                    },
                }
            }
            proof {
                assert(lines_scan(linesv, k as int, st0, acc0) == lines_scan(
                    linesv,
                    k + 1,
                    st,
                    acc@,
                ));
            }
            k = k + 1;
        }
        proof {
            assert(lines_scan(linesv, nl as int, st, acc@).1 =~= acc@);
        }
        Compats { compats: acc }
    }
}

} // verus!
