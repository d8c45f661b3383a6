//! The parser: filters the source text down to the eight language
//! characters, matches brackets with a stack in a single scan, and
//! backpatches the recorded pairs into resolved branch targets.

use vstd::prelude::*;
use vstd::std_specs::iter::IteratorSpec;

use crate::types::Bytecode;
use crate::types::Instr;
use crate::types::ParseError;
use crate::types::bytecode_wf;
use crate::types::instr_wf_at;

verus! {

/// The eight characters of the language; every other character is a comment.
pub open spec fn is_lang_char(c: char) -> bool {
    ||| c == '>'
    ||| c == '<'
    ||| c == '+'
    ||| c == '-'
    ||| c == '.'
    ||| c == ','
    ||| c == '['
    ||| c == ']'
}

/// The source text with every non-language character discarded.
pub open spec fn filter_lang(s: Seq<char>) -> Seq<char>
    decreases s.len(),
{
    if s.len() == 0 {
        Seq::empty()
    } else {
        filter_lang(s.drop_last()) + (if is_lang_char(s.last()) {
            seq![s.last()]
        } else {
            Seq::empty()
        })
    }
}

/// The number of `[` minus the number of `]` among the first `k` characters.
pub open spec fn balance(s: Seq<char>, k: int) -> int
    decreases k,
{
    if k <= 0 {
        0
    } else {
        balance(s, k - 1) + (if s[k - 1] == '[' {
            1int
        } else if s[k - 1] == ']' {
            -1int
        } else {
            0int
        })
    }
}

/// No prefix closes more brackets than were opened before it.
pub open spec fn never_negative(s: Seq<char>) -> bool {
    forall|k: int| 0 <= k <= s.len() ==> balance(s, k) >= 0
}

/// Well-bracketed: no prefix underflows and every `[` is eventually closed.
pub open spec fn balanced(s: Seq<char>) -> bool {
    never_negative(s) && balance(s, s.len() as int) == 0
}

/// `c` is the close bracket matching the open bracket at `o`: the bracket
/// balance returns to its level at `o` right after `c` and stays strictly
/// above it everywhere in between.
pub open spec fn is_match(s: Seq<char>, o: int, c: int) -> bool {
    &&& 0 <= o < c < s.len()
    &&& s[o] == '['
    &&& s[c] == ']'
    &&& balance(s, c + 1) == balance(s, o)
    &&& forall|j: int| o < j <= c ==> #[trigger] balance(s, j) > balance(s, o)
}

/// The instruction for a language character that is not a bracket.
pub open spec fn plain_instr(c: char) -> Instr {
    if c == '>' {
        Instr::MovePointerForward
    } else if c == '<' {
        Instr::MovePointerBackward
    } else if c == '+' {
        Instr::IncrementCell
    } else if c == '-' {
        Instr::DecrementCell
    } else if c == '.' {
        Instr::OutputCell
    } else {
        Instr::InputCell
    }
}

/// The instruction the scan pass appends for a language character, with a
/// placeholder target for brackets.
spec fn placeholder_instr(c: char) -> Instr {
    if c == '[' {
        Instr::BranchIfZero(0)
    } else if c == ']' {
        Instr::BranchIfNonZero(0)
    } else {
        plain_instr(c)
    }
}

/// Instruction `i` is the correct translation of filtered character `f[i]`,
/// with bracket targets resolved to the matching bracket's index.
pub open spec fn resolved_instr_ok(f: Seq<char>, instrs: Seq<Instr>, i: int) -> bool {
    if f[i] == '[' {
        &&& instrs[i] matches Instr::BranchIfZero(t)
        &&& is_match(f, i, t as int)
    } else if f[i] == ']' {
        &&& instrs[i] matches Instr::BranchIfNonZero(t)
        &&& is_match(f, t as int, i)
    } else {
        instrs[i] == plain_instr(f[i])
    }
}

/// What `parse` guarantees of the instruction sequence it returns for the
/// filtered source `f`.
pub open spec fn parse_ok_post(f: Seq<char>, instrs: Seq<Instr>) -> bool {
    &&& instrs.len() == f.len()
    &&& forall|i: int| 0 <= i < f.len() ==> #[trigger] resolved_instr_ok(f, instrs, i)
}

/// Which error `parse` returns on which filtered source `f`.
pub open spec fn parse_err_post(f: Seq<char>, e: ParseError) -> bool {
    match e {
        ParseError::UnmatchedCloseBracket => !never_negative(f),
        ParseError::UnmatchedOpenBracket { count } => {
            &&& never_negative(f)
            &&& balance(f, f.len() as int) == count
            &&& count > 0
        },
    }
}

/// Every character of a filtered source is a language character.
pub proof fn lemma_filter_lang_all_lang(s: Seq<char>)
    ensures
        forall|k: int| 0 <= k < filter_lang(s).len() ==> is_lang_char(#[trigger] filter_lang(s)[k]),
    decreases s.len(),
{
    if s.len() > 0 {
        lemma_filter_lang_all_lang(s.drop_last());
        let fl = filter_lang(s.drop_last());
        assert forall|k: int| 0 <= k < filter_lang(s).len() implies is_lang_char(
            filter_lang(s)[k],
        ) by {
            if k < fl.len() {
                assert(filter_lang(s)[k] == fl[k]);
            } else {
                assert(is_lang_char(s.last()));
                assert(filter_lang(s)[k] == s.last());
            }
        }
    }
}

/// Filtering a sequence of language characters keeps it unchanged.
pub proof fn lemma_filter_lang_identity(s: Seq<char>)
    requires
        forall|k: int| 0 <= k < s.len() ==> is_lang_char(#[trigger] s[k]),
    ensures
        filter_lang(s) == s,
    decreases s.len(),
{
    if s.len() == 0 {
        assert(filter_lang(s) =~= s);
    } else {
        lemma_filter_lang_identity(s.drop_last());
        assert(filter_lang(s) =~= s);
    }
}

/// Filtering is idempotent: non-language characters are gone after one pass.
pub proof fn lemma_filter_lang_idempotent(s: Seq<char>)
    ensures
        filter_lang(filter_lang(s)) == filter_lang(s),
{
    lemma_filter_lang_all_lang(s);
    lemma_filter_lang_identity(filter_lang(s));
}

/// An open bracket has at most one matching close bracket.
pub proof fn lemma_match_close_unique(s: Seq<char>, o: int, c1: int, c2: int)
    requires
        is_match(s, o, c1),
        is_match(s, o, c2),
    ensures
        c1 == c2,
{
    if c1 < c2 {
        assert(balance(s, c1 + 1) > balance(s, o));
    } else if c2 < c1 {
        assert(balance(s, c2 + 1) > balance(s, o));
    }
}

/// A close bracket has at most one matching open bracket.
pub proof fn lemma_match_open_unique(s: Seq<char>, o1: int, o2: int, c: int)
    requires
        is_match(s, o1, c),
        is_match(s, o2, c),
    ensures
        o1 == o2,
{
    if o1 < o2 {
        assert(balance(s, o2) > balance(s, o1));
        assert(false);
    } else if o2 < o1 {
        assert(balance(s, o1) > balance(s, o2));
        assert(false);
    }
}

/// Bracket pairs never cross: if a pair opens strictly inside another pair,
/// it also closes inside it.
pub proof fn lemma_matches_never_cross(s: Seq<char>, o1: int, c1: int, o2: int, c2: int)
    requires
        is_match(s, o1, c1),
        is_match(s, o2, c2),
        o1 < o2 < c1,
    ensures
        o1 < o2 < c2 < c1,
{
    assert(balance(s, o2) > balance(s, o1));
    if c2 == c1 {
        lemma_match_open_unique(s, o1, o2, c1);
        assert(false);
    }
    if c2 > c1 {
        assert(balance(s, c1 + 1) > balance(s, o2));
        assert(false);
    }
}

/// The instruction sequence satisfying `parse_ok_post` for a given filtered
/// source is unique: the parse result is a function of the filtered source
/// alone, so sources that differ only in non-language characters parse
/// identically.
pub proof fn lemma_parse_output_unique(f: Seq<char>, a: Seq<Instr>, b: Seq<Instr>)
    requires
        parse_ok_post(f, a),
        parse_ok_post(f, b),
    ensures
        a == b,
{
    assert forall|i: int| 0 <= i < f.len() implies a[i] == b[i] by {
        assert(resolved_instr_ok(f, a, i));
        assert(resolved_instr_ok(f, b, i));
        if f[i] == '[' {
            let ta = a[i]->BranchIfZero_0;
            let tb = b[i]->BranchIfZero_0;
            lemma_match_close_unique(f, i, ta as int, tb as int);
        } else if f[i] == ']' {
            let ta = a[i]->BranchIfNonZero_0;
            let tb = b[i]->BranchIfNonZero_0;
            lemma_match_open_unique(f, ta as int, tb as int, i);
        }
    }
    assert(a =~= b);
}

/// A resolved instruction sequence satisfies the program invariant: the two
/// instructions of every bracket pair carry each other's index.
pub proof fn lemma_parse_post_wf(f: Seq<char>, instrs: Seq<Instr>)
    requires
        parse_ok_post(f, instrs),
    ensures
        bytecode_wf(instrs),
{
    assert forall|i: int| 0 <= i < instrs.len() implies instr_wf_at(instrs, i) by {
        assert(resolved_instr_ok(f, instrs, i));
        match instrs[i] {
            Instr::BranchIfZero(t) => {
                assert(f[i] == '[');
                assert(is_match(f, i, t as int));
                assert(resolved_instr_ok(f, instrs, t as int));
                let o = instrs[t as int]->BranchIfNonZero_0;
                lemma_match_open_unique(f, i, o as int, t as int);
            },
            Instr::BranchIfNonZero(t) => {
                assert(f[i] == ']');
                assert(is_match(f, t as int, i));
                assert(resolved_instr_ok(f, instrs, t as int));
                let c = instrs[t as int]->BranchIfZero_0;
                lemma_match_close_unique(f, t as int, c as int, i);
            },
            _ => {},
        }
    }
}

/// One pending `[` on the scan stack: it sits at depth `m`, and the balance
/// stays strictly above `m` from just past it up to the scan position `idx`.
spec fn stack_entry_ok(f: Seq<char>, stack: Seq<usize>, idx: int, m: int) -> bool {
    &&& 0 <= stack[m] < idx
    &&& f[stack[m] as int] == '['
    &&& balance(f, stack[m] as int) == m
    &&& forall|j: int| stack[m] < j <= idx ==> #[trigger] balance(f, j) > m
}

/// The scan stack holds exactly the pending open brackets, bottom-up by depth.
spec fn stack_ok(f: Seq<char>, stack: Seq<usize>, idx: int) -> bool {
    &&& stack.len() == balance(f, idx)
    &&& forall|m: int| 0 <= m < stack.len() ==> #[trigger] stack_entry_ok(f, stack, idx, m)
}

/// Every recorded pair is a true bracket match that closed before `idx`.
spec fn pair_ok(f: Seq<char>, pr: (usize, usize), idx: int) -> bool {
    &&& is_match(f, pr.0 as int, pr.1 as int)
    &&& pr.1 < idx
}

/// Recorded pairs are matches, listed in the order their `]` appeared.
spec fn pairs_ok(f: Seq<char>, pairs: Seq<(usize, usize)>, idx: int) -> bool {
    &&& forall|p: int| 0 <= p < pairs.len() ==> #[trigger] pair_ok(f, pairs[p], idx)
    &&& forall|p: int, q: int| 0 <= p < q < pairs.len() ==> (#[trigger] pairs[p]).1 < (#[trigger] pairs[q]).1
}

/// Every `[` seen so far is still pending on the stack or already paired.
spec fn opens_covered(f: Seq<char>, stack: Seq<usize>, pairs: Seq<(usize, usize)>, idx: int) -> bool {
    forall|k: int| 0 <= k < idx && f[k] == '[' ==> {
        ||| exists|m: int| 0 <= m < stack.len() && stack[m] == k
        ||| exists|p: int| 0 <= p < pairs.len() && (#[trigger] pairs[p]).0 == k
    }
}

/// Every `]` seen so far has been paired.
spec fn closes_covered(f: Seq<char>, pairs: Seq<(usize, usize)>, idx: int) -> bool {
    forall|k: int| 0 <= k < idx && f[k] == ']' ==> exists|p: int|
        0 <= p < pairs.len() && (#[trigger] pairs[p]).1 == k
}

/// Both instructions of a recorded pair carry each other's index.
spec fn pair_patched(instrs: Seq<Instr>, pr: (usize, usize)) -> bool {
    &&& instrs[pr.0 as int] == Instr::BranchIfZero(pr.1)
    &&& instrs[pr.1 as int] == Instr::BranchIfNonZero(pr.0)
}

/// Parse source text into bytecode.
///
/// Strips all non-language characters, then matches brackets in a single
/// left-to-right scan with a stack of pending `[` positions, recording each
/// matched pair; a second pass rewrites the placeholder targets so that the
/// two instructions of every pair reference each other.
///
/// Succeeds exactly on well-bracketed sources; a lone `]` fails with
/// [`ParseError::UnmatchedCloseBracket`], and `[`s left open at the end fail
/// with [`ParseError::UnmatchedOpenBracket`] carrying their count.
#[verifier::loop_isolation(false)]
pub fn parse(src: &str) -> (r: Result<Bytecode, ParseError>)
    ensures
        r is Ok <==> balanced(filter_lang(src@)),
        match r {
            Ok(b) => parse_ok_post(filter_lang(src@), b.instrs@) && b.wf(),
            Err(e) => parse_err_post(filter_lang(src@), e),
        },
{
    let filtered: Vec<char> = filter_source(src);
    let ghost f = filtered@;
    proof {
        lemma_filter_lang_all_lang(src@);
    }

    // First pass: translate each character, matching brackets with a stack
    // of pending `[` positions and recording each completed pair.
    let mut instrs: Vec<Instr> = Vec::new();
    let mut bracket_stack: Vec<usize> = Vec::new();
    let mut bracket_pairs: Vec<(usize, usize)> = Vec::new();
    let mut idx: usize = 0;
    while idx < filtered.len()
        invariant
            idx <= f.len(),
            instrs@.len() == idx,
            forall|k: int| 0 <= k < idx ==> instrs@[k] == placeholder_instr(#[trigger] f[k]),
            stack_ok(f, bracket_stack@, idx as int),
            forall|k: int| 0 <= k <= idx ==> #[trigger] balance(f, k) >= 0,
            pairs_ok(f, bracket_pairs@, idx as int),
            opens_covered(f, bracket_stack@, bracket_pairs@, idx as int),
            closes_covered(f, bracket_pairs@, idx as int),
        decreases f.len() - idx,
    {
        let c = filtered[idx];
        proof {
            assert(is_lang_char(f[idx as int]));
        }
        if c == '[' {
            let ghost old_stack = bracket_stack@;
            bracket_stack.push(idx);
            instrs.push(Instr::BranchIfZero(0));
            proof {
                let st = bracket_stack@;
                assert(balance(f, idx + 1) == balance(f, idx as int) + 1);
                assert forall|m: int| 0 <= m < st.len() implies #[trigger] stack_entry_ok(
                    f,
                    st,
                    idx + 1,
                    m,
                ) by {
                    if m < st.len() - 1 {
                        assert(stack_entry_ok(f, old_stack, idx as int, m));
                        assert(st[m] == old_stack[m]);
                        assert forall|j: int| st[m] < j <= idx + 1 implies #[trigger] balance(
                            f,
                            j,
                        ) > m by {
                            if j <= idx {
                                assert(balance(f, j) > m);
                            }
                        }
                    } else {
                        assert(st[m] == idx);
                        assert(balance(f, idx as int) == m);
                    }
                }
                assert forall|p: int| 0 <= p < bracket_pairs@.len() implies #[trigger] pair_ok(
                    f,
                    bracket_pairs@[p],
                    idx + 1,
                ) by {
                    assert(pair_ok(f, bracket_pairs@[p], idx as int));
                }
                assert(opens_covered(f, st, bracket_pairs@, idx + 1)) by {
                    assert forall|k: int| 0 <= k < idx + 1 && f[k] == '[' implies {
                        ||| exists|m: int| 0 <= m < st.len() && st[m] == k
                        ||| exists|p: int|
                            0 <= p < bracket_pairs@.len() && (#[trigger] bracket_pairs@[p]).0 == k
                    } by {
                        if k < idx {
                            if exists|m: int| 0 <= m < old_stack.len() && old_stack[m] == k {
                                let m = choose|m: int|
                                    0 <= m < old_stack.len() && old_stack[m] == k;
                                assert(st[m] == k);
                            }
                        } else {
                            assert(st[st.len() - 1] == k);
                        }
                    }
                }
                assert(closes_covered(f, bracket_pairs@, idx + 1)) by {
                    assert forall|k: int| 0 <= k < idx + 1 && f[k] == ']' implies exists|p: int|
                        0 <= p < bracket_pairs@.len() && (#[trigger] bracket_pairs@[p]).1
                            == k by {
                        assert(k < idx);
                    }
                }
            }
        } else if c == ']' {
            if bracket_stack.len() == 0 {
                proof {
                    assert(balance(f, idx as int) == 0);
                    assert(balance(f, idx + 1) == -1);
                    assert(!never_negative(f));
                }
                return Err(ParseError::UnmatchedCloseBracket);
            }
            let ghost old_stack = bracket_stack@;
            let ghost old_pairs = bracket_pairs@;
            let open_idx = bracket_stack.pop().unwrap();
            proof {
                let top = old_stack.len() - 1;
                assert(stack_entry_ok(f, old_stack, idx as int, top));
                assert(balance(f, idx + 1) == balance(f, idx as int) - 1);
                assert(is_match(f, open_idx as int, idx as int));
            }
            bracket_pairs.push((open_idx, idx));
            instrs.push(Instr::BranchIfNonZero(0));
            proof {
                let st = bracket_stack@;
                let top = old_stack.len() - 1;
                assert forall|m: int| 0 <= m < st.len() implies #[trigger] stack_entry_ok(
                    f,
                    st,
                    idx + 1,
                    m,
                ) by {
                    assert(stack_entry_ok(f, old_stack, idx as int, m));
                    assert(st[m] == old_stack[m]);
                    assert forall|j: int| st[m] < j <= idx + 1 implies #[trigger] balance(
                        f,
                        j,
                    ) > m by {
                        if j <= idx {
                            assert(balance(f, j) > m);
                        } else {
                            assert(balance(f, idx + 1) == top);
                        }
                    }
                }
                assert forall|p: int| 0 <= p < bracket_pairs@.len() implies #[trigger] pair_ok(
                    f,
                    bracket_pairs@[p],
                    idx + 1,
                ) by {
                    if p < old_pairs.len() {
                        assert(pair_ok(f, old_pairs[p], idx as int));
                    }
                }
                assert forall|pp: int, qq: int|
                    0 <= pp < qq < bracket_pairs@.len() implies (#[trigger] bracket_pairs@[pp]).1
                    < (#[trigger] bracket_pairs@[qq]).1 by {
                    if qq == old_pairs.len() {
                        assert(pair_ok(f, old_pairs[pp], idx as int));
                    } else {
                        assert(old_pairs[pp].1 < old_pairs[qq].1);
                    }
                }
                assert(opens_covered(f, st, bracket_pairs@, idx + 1)) by {
                    assert forall|k: int| 0 <= k < idx + 1 && f[k] == '[' implies {
                        ||| exists|m: int| 0 <= m < st.len() && st[m] == k
                        ||| exists|p: int|
                            0 <= p < bracket_pairs@.len() && (#[trigger] bracket_pairs@[p]).0 == k
                    } by {
                        if k < idx {
                            if exists|m: int| 0 <= m < old_stack.len() && old_stack[m] == k {
                                let m = choose|m: int|
                                    0 <= m < old_stack.len() && old_stack[m] == k;
                                if m < top {
                                    assert(st[m] == k);
                                } else {
                                    assert(k == open_idx);
                                    assert(bracket_pairs@[old_pairs.len() as int].0 == k);
                                }
                            } else {
                                let p = choose|p: int|
                                    0 <= p < old_pairs.len() && old_pairs[p].0 == k;
                                assert(bracket_pairs@[p].0 == k);
                            }
                        }
                    }
                }
                assert(closes_covered(f, bracket_pairs@, idx + 1)) by {
                    assert forall|k: int| 0 <= k < idx + 1 && f[k] == ']' implies exists|p: int|
                        0 <= p < bracket_pairs@.len() && (#[trigger] bracket_pairs@[p]).1
                            == k by {
                        if k < idx {
                            let p = choose|p: int|
                                0 <= p < old_pairs.len() && old_pairs[p].1 == k;
                            assert(bracket_pairs@[p].1 == k);
                        } else {
                            assert(bracket_pairs@[old_pairs.len() as int].1 == k);
                        }
                    }
                }
            }
        } else {
            if c == '>' {
                instrs.push(Instr::MovePointerForward);
            } else if c == '<' {
                instrs.push(Instr::MovePointerBackward);
            } else if c == '+' {
                instrs.push(Instr::IncrementCell);
            } else if c == '-' {
                instrs.push(Instr::DecrementCell);
            } else if c == '.' {
                instrs.push(Instr::OutputCell);
            } else {
                instrs.push(Instr::InputCell);
            }
            proof {
                let st = bracket_stack@;
                assert(balance(f, idx + 1) == balance(f, idx as int));
                assert forall|m: int| 0 <= m < st.len() implies #[trigger] stack_entry_ok(
                    f,
                    st,
                    idx + 1,
                    m,
                ) by {
                    assert(stack_entry_ok(f, st, idx as int, m));
                    assert forall|j: int| st[m] < j <= idx + 1 implies #[trigger] balance(
                        f,
                        j,
                    ) > m by {
                        if j <= idx {
                            assert(balance(f, j) > m);
                        }
                    }
                }
                assert forall|p: int| 0 <= p < bracket_pairs@.len() implies #[trigger] pair_ok(
                    f,
                    bracket_pairs@[p],
                    idx + 1,
                ) by {
                    assert(pair_ok(f, bracket_pairs@[p], idx as int));
                }
                assert(opens_covered(f, st, bracket_pairs@, idx + 1)) by {
                    assert forall|k: int| 0 <= k < idx + 1 && f[k] == '[' implies {
                        ||| exists|m: int| 0 <= m < st.len() && st[m] == k
                        ||| exists|p: int|
                            0 <= p < bracket_pairs@.len() && (#[trigger] bracket_pairs@[p]).0 == k
                    } by {
                        assert(k < idx);
                    }
                }
                assert(closes_covered(f, bracket_pairs@, idx + 1)) by {
                    assert forall|k: int| 0 <= k < idx + 1 && f[k] == ']' implies exists|p: int|
                        0 <= p < bracket_pairs@.len() && (#[trigger] bracket_pairs@[p]).1
                            == k by {
                        assert(k < idx);
                    }
                }
            }
        }
        idx = idx + 1;
    }

    if bracket_stack.len() > 0 {
        let count = bracket_stack.len();
        proof {
            assert(balance(f, f.len() as int) == count);
        }
        return Err(ParseError::UnmatchedOpenBracket { count });
    }

    proof {
        assert(balance(f, f.len() as int) == 0);
        assert(balanced(f));
    }

    // Second pass: rewrite each recorded pair's placeholder targets so the
    // two bracket instructions reference each other.
    let ghost scan_pairs = bracket_pairs@;
    let mut p: usize = 0;
    while p < bracket_pairs.len()
        invariant
            p <= bracket_pairs.len(),
            bracket_pairs@ == scan_pairs,
            instrs@.len() == f.len(),
            forall|k: int|
                0 <= k < f.len() && f[k] != '[' && f[k] != ']' ==> instrs@[k] == plain_instr(
                    #[trigger] f[k],
                ),
            forall|q: int| 0 <= q < p ==> pair_patched(instrs@, #[trigger] scan_pairs[q]),
        decreases bracket_pairs@.len() - p,
    {
        let (open_idx, close_idx) = bracket_pairs[p];
        proof {
            assert(pair_ok(f, scan_pairs[p as int], f.len() as int));
        }
        instrs[open_idx] = Instr::BranchIfZero(close_idx);
        instrs[close_idx] = Instr::BranchIfNonZero(open_idx);
        proof {
            assert forall|q: int| 0 <= q < p + 1 implies pair_patched(
                instrs@,
                #[trigger] scan_pairs[q],
            ) by {
                if q < p {
                    assert(pair_ok(f, scan_pairs[q], f.len() as int));
                    if scan_pairs[q].0 == open_idx {
                        lemma_match_close_unique(
                            f,
                            open_idx as int,
                            scan_pairs[q].1 as int,
                            close_idx as int,
                        );
                        assert(false);
                    }
                }
            }
        }
        p = p + 1;
    }

    proof {
        assert forall|i: int| 0 <= i < f.len() implies #[trigger] resolved_instr_ok(
            f,
            instrs@,
            i,
        ) by {
            if f[i] == '[' {
                let q = choose|q: int| 0 <= q < scan_pairs.len() && scan_pairs[q].0 == i;
                assert(pair_patched(instrs@, scan_pairs[q]));
                assert(pair_ok(f, scan_pairs[q], f.len() as int));
            } else if f[i] == ']' {
                let q = choose|q: int| 0 <= q < scan_pairs.len() && scan_pairs[q].1 == i;
                assert(pair_patched(instrs@, scan_pairs[q]));
                assert(pair_ok(f, scan_pairs[q], f.len() as int));
            }
        }
        lemma_parse_post_wf(f, instrs@);
    }
    Ok(Bytecode { instrs })
}

/// Whether `c` is one of the eight language characters.
fn lang_char(c: char) -> (r: bool)
    ensures
        r == is_lang_char(c),
{
    c == '>' || c == '<' || c == '+' || c == '-' || c == '.' || c == ',' || c == '[' || c == ']'
}

/// Collects the language characters of the source, in order.
fn filter_source(src: &str) -> (out: Vec<char>)
    ensures
        out@ == filter_lang(src@),
{
    let mut out: Vec<char> = Vec::new();
    let mut it = src.chars();
    let ghost mut k: int = 0;
    loop
        invariant
            0 <= k <= src@.len(),
            it.remaining() =~= src@.skip(k),
            out@ == filter_lang(src@.take(k)),
        ensures
            out@ == filter_lang(src@),
        decreases src@.len() - k,
    {
        match it.next() {
            Some(c) => {
                proof {
                    assert(src@.skip(k)[0] == src@[k]);
                    assert(src@.skip(k).drop_first() =~= src@.skip(k + 1));
                }
                if lang_char(c) {
                    out.push(c);
                }
                proof {
                    assert(src@.take(k + 1).drop_last() =~= src@.take(k));
                    assert(src@.take(k + 1).last() == src@[k]);
                    k = k + 1;
                }
            },
            None => {
                proof {
                    assert(k == src@.len());
                    assert(src@.take(k) =~= src@);
                }
                break;
            },
        }
    }
    out
}

} // verus!
