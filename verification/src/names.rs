//! Operation method names, derived from the schema's variant names.
//!
//! A pascal-case variant name such as `RandomBytes` names the method
//! `random_bytes`: the name's parts are its maximal runs of one upper-case
//! letter, digit or underscore followed by one or more lower-case letters,
//! digits or underscores; each part is lowercased at its head and the parts
//! are joined with underscores. Characters between parts do not appear in
//! the result.

use vstd::prelude::*;

verus! {

/// May a part begin with this character?
pub open spec fn is_part_head(c: char) -> bool {
    let u = c as u32;
    (('A' as u32) <= u && u <= ('Z' as u32)) || (('0' as u32) <= u && u <= ('9' as u32)) || u == (
    '_' as u32)
}

/// May a part continue with this character?
pub open spec fn is_part_tail(c: char) -> bool {
    let u = c as u32;
    (('a' as u32) <= u && u <= ('z' as u32)) || (('0' as u32) <= u && u <= ('9' as u32)) || u == (
    '_' as u32)
}

/// An upper-case letter, lowercased; any other character, unchanged.
pub open spec fn lower_char(c: char) -> char {
    let u = c as u32;
    if ('A' as u32) <= u && u <= ('Z' as u32) {
        (((u + 32) as u8) as char)
    } else {
        c
    }
}

/// The first position at or after `k` where a part can no longer continue.
pub open spec fn part_end(s: Seq<char>, k: int) -> int
    decreases s.len() - k,
    when 0 <= k <= s.len()
{
    if k >= s.len() || !is_part_tail(s[k]) {
        k
    } else {
        part_end(s, k + 1)
    }
}

/// `part_end` lands after the maximal run of part-continuing characters.
pub proof fn lemma_part_end(s: Seq<char>, k: int)
    requires
        0 <= k <= s.len(),
    ensures
        k <= part_end(s, k) <= s.len(),
        forall|j: int| k <= j < part_end(s, k) ==> is_part_tail(#[trigger] s[j]),
        part_end(s, k) < s.len() ==> !is_part_tail(s[part_end(s, k)]),
    decreases s.len() - k,
{
    if k < s.len() && is_part_tail(s[k]) {
        lemma_part_end(s, k + 1);
    }
}

/// The parts of `s` from position `i` on: leftmost-first, non-overlapping,
/// each maximal.
pub open spec fn parts_from(s: Seq<char>, i: int) -> Seq<Seq<char>>
    decreases s.len() - i,
    when 0 <= i <= s.len()
    via parts_from_decreases
{
    if i >= s.len() {
        Seq::empty()
    } else if i + 1 < s.len() && is_part_head(s[i]) && is_part_tail(s[i + 1]) {
        let j = part_end(s, i + 2);
        seq![s.subrange(i, j)] + parts_from(s, j)
    } else {
        parts_from(s, i + 1)
    }
}

#[via_fn]
proof fn parts_from_decreases(s: Seq<char>, i: int) {
    if i < s.len() && i + 1 < s.len() && is_part_head(s[i]) && is_part_tail(s[i + 1]) {
        lemma_part_end(s, i + 2);
    }
}

/// A part, lowercased at its head.
pub open spec fn lowered(p: Seq<char>) -> Seq<char> {
    if p.len() == 0 {
        p
    } else {
        seq![lower_char(p[0])] + p.drop_first()
    }
}

/// The parts joined; `sep` says whether an underscore comes first.
pub open spec fn join_from(parts: Seq<Seq<char>>, sep: bool) -> Seq<char>
    decreases parts.len(),
{
    if parts.len() == 0 {
        Seq::empty()
    } else {
        (if sep {
            seq!['_']
        } else {
            Seq::empty()
        }) + lowered(parts[0]) + join_from(parts.drop_first(), true)
    }
}

/// The snake-case rendering of a pascal-case name.
pub open spec fn snake_of(s: Seq<char>) -> Seq<char> {
    join_from(parts_from(s, 0), false)
}

/// May a part begin with this character?
fn is_head_char(c: char) -> (r: bool)
    ensures
        r == is_part_head(c),
{
    let u = c as u32;
    (('A' as u32) <= u && u <= ('Z' as u32)) || (('0' as u32) <= u && u <= ('9' as u32)) || u == (
    '_' as u32)
}

/// May a part continue with this character?
fn is_tail_char(c: char) -> (r: bool)
    ensures
        r == is_part_tail(c),
{
    let u = c as u32;
    (('a' as u32) <= u && u <= ('z' as u32)) || (('0' as u32) <= u && u <= ('9' as u32)) || u == (
    '_' as u32)
}

/// Relies on `String::from` for `char`: the string of exactly that one
/// character.
#[verifier::external_body]
fn char_to_string(c: char) -> (r: String)
    ensures
        r@ == seq![c],
{
    String::from(c)
}

/// Derive a method name from a pascal-case variant name.
#[verifier::loop_isolation(false)]
pub fn pascal_to_snake(pascal: &str) -> (r: String)
    ensures
        r@ == snake_of(pascal@),
{
    let ghost s = pascal@;
    let n = pascal.unicode_len();
    let mut out = String::new();
    let mut any = false;
    let mut i: usize = 0;
    while i < n
        invariant
            0 <= i <= n,
            snake_of(s) == out@ + join_from(parts_from(s, i as int), any),
        decreases n - i,
    {
        let c = pascal.get_char(i);
        let mut matched = false;
        if is_head_char(c) && i + 1 < n {
            let c1 = pascal.get_char(i + 1);
            if is_tail_char(c1) {
                matched = true;
                let mut j: usize = i + 2;
                while j < n && is_tail_char(pascal.get_char(j))
                    invariant
                        i + 2 <= j <= n,
                        forall|t: int| i + 2 <= t < j ==> is_part_tail(#[trigger] s[t]),
                    decreases n - j,
                {
                    j = j + 1;
                }
                proof {
                    lemma_part_end_agrees(s, i as int + 2, j as int);
                }
                if any {
                    proof {
                        reveal_strlit("_");
                    }
                    out.append("_");
                }
                let lc = lower_char_exec(c);
                let head_str = char_to_string(lc);
                out.append(head_str.as_str());
                let tail = pascal.substring_char(i + 1, j);
                out.append(tail);
                proof {
                    let part = s.subrange(i as int, j as int);
                    assert(part[0] == s[i as int]);
                    assert(part.drop_first() =~= s.subrange(i as int + 1, j as int));
                    assert(lowered(part) =~= seq![lower_char(s[i as int])] + s.subrange(
                        i as int + 1,
                        j as int,
                    ));
                    let rest = parts_from(s, j as int);
                    assert(parts_from(s, i as int) == seq![part] + rest);
                    assert((seq![part] + rest)[0] == part);
                    assert((seq![part] + rest).drop_first() =~= rest);
                    if any {
                        assert(join_from(parts_from(s, i as int), true) =~= seq!['_'] + lowered(
                            part,
                        ) + join_from(rest, true));
                        assert(snake_of(s) =~= out@ + join_from(rest, true));
                    } else {
                        assert(join_from(parts_from(s, i as int), false) =~= lowered(part)
                            + join_from(rest, true));
                        assert(snake_of(s) =~= out@ + join_from(rest, true));
                    }
                }
                any = true;
                i = j;
            }
        }
        if !matched {
            proof {
                assert(parts_from(s, i as int) == parts_from(s, i as int + 1));
            }
            i = i + 1;
        }
    }
    proof {
        assert(join_from(parts_from(s, n as int), any) =~= Seq::<char>::empty());
        assert(out@ + Seq::<char>::empty() =~= out@);
    }
    out
}

/// An upper-case letter, lowercased; any other character, unchanged.
fn lower_char_exec(c: char) -> (r: char)
    ensures
        r == lower_char(c),
{
    let u = c as u32;
    if ('A' as u32) <= u && u <= ('Z' as u32) {
        ((u + 32) as u8) as char
    } else {
        c
    }
}

/// A maximal scan agrees with `part_end`: a position after a run of
/// part-continuing characters that sits at the end or before a
/// non-continuing character is exactly `part_end`.
proof fn lemma_part_end_agrees(s: Seq<char>, k: int, j: int)
    requires
        0 <= k <= j <= s.len(),
        forall|t: int| k <= t < j ==> is_part_tail(#[trigger] s[t]),
        j < s.len() ==> !is_part_tail(s[j]),
    ensures
        part_end(s, k) == j,
    decreases j - k,
{
    if k < j {
        lemma_part_end_agrees(s, k + 1, j);
    }
}

} // verus!
