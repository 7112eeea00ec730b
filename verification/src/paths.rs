//! The path resolver: companion names for the two parts of a split,
//! extension stripping, and collision-free output naming. Paths are plain
//! byte strings; the extension of a path is what follows the last dot of its
//! final component, provided that dot is not the component's first byte.

use vstd::prelude::*;

verus! {

use crate::SplinchError;
use crate::chunks::{copy_chunk, bytes_eq};

/// The path separator byte.
pub const SLASH: u8 = 47;

/// The extension separator byte.
pub const DOT: u8 = 46;

/// The byte `x`.
pub const LOWER_X: u8 = 120;

/// The byte `o`.
pub const LOWER_O: u8 = 111;

/// The byte `r`.
pub const LOWER_R: u8 = 114;

/// The byte `1`.
pub const DIGIT_ONE: u8 = 49;

/// The byte `2`.
pub const DIGIT_TWO: u8 = 50;

/// Index of the dot that starts the extension of the path's final
/// component, or -1 when the path has no extension.
pub open spec fn dot_index(p: Seq<u8>) -> int
    decreases p.len(),
{
    if p.len() == 0 {
        -1
    } else if p.last() == SLASH {
        -1
    } else if p.last() == DOT && p.len() >= 2 && p[p.len() - 2] != SLASH {
        p.len() - 1
    } else {
        dot_index(p.drop_last())
    }
}

pub open spec fn has_extension(p: Seq<u8>) -> bool {
    dot_index(p) >= 0
}

/// The extension bytes, without the dot.
pub open spec fn extension_of(p: Seq<u8>) -> Seq<u8>
    recommends
        has_extension(p),
{
    p.subrange(dot_index(p) + 1, p.len() as int)
}

/// The path with its extension replaced (the dot is kept).
pub open spec fn with_extension(p: Seq<u8>, e: Seq<u8>) -> Seq<u8>
    recommends
        has_extension(p),
{
    p.subrange(0, dot_index(p) + 1) + e
}

/// The path with its extension and the dot removed.
pub open spec fn without_extension(p: Seq<u8>) -> Seq<u8>
    recommends
        has_extension(p),
{
    p.subrange(0, dot_index(p))
}

pub open spec fn xor1_ext() -> Seq<u8> {
    seq![LOWER_X, LOWER_O, LOWER_R, DIGIT_ONE]
}

pub open spec fn xor2_ext() -> Seq<u8> {
    seq![LOWER_X, LOWER_O, LOWER_R, DIGIT_TWO]
}

/// The path names the random part of a split.
pub open spec fn is_xor1(p: Seq<u8>) -> bool {
    has_extension(p) && extension_of(p) == xor1_ext()
}

/// The path names the masked part of a split.
pub open spec fn is_xor2(p: Seq<u8>) -> bool {
    has_extension(p) && extension_of(p) == xor2_ext()
}

/// Where the extension dot can be, and what stands there.
pub proof fn lemma_dot_index_bounds(p: Seq<u8>)
    ensures
        -1 <= dot_index(p) < p.len(),
        dot_index(p) >= 0 ==> p[dot_index(p)] == DOT,
    decreases p.len(),
{
    if p.len() == 0 {
    } else if p.last() == SLASH {
    } else if p.last() == DOT && p.len() >= 2 && p[p.len() - 2] != SLASH {
    } else {
        lemma_dot_index_bounds(p.drop_last());
    }
}

/// Find the extension dot of a path.
fn find_dot(p: &Vec<u8>) -> (r: Option<usize>)
    ensures
        r matches Some(d) ==> d as int == dot_index(p@),
        r is None ==> dot_index(p@) == -1,
{
    let mut i: usize = p.len();
    assert(p@.subrange(0, p.len() as int) =~= p@);
    while i > 0
        invariant
            i <= p.len(),
            dot_index(p@) == dot_index(p@.subrange(0, i as int)),
        decreases i,
    {
        let ghost sub = p@.subrange(0, i as int);
        assert(sub.last() == p@[i - 1]);
        let c = p[i - 1];
        if c == SLASH {
            return None;
        }
        if c == DOT && i >= 2 {
            assert(sub[i - 2] == p@[i - 2]);
            if p[i - 2] != SLASH {
                return Some(i - 1);
            }
        }
        proof {
            assert(sub.drop_last() =~= p@.subrange(0, i as int - 1));
        }
        i = i - 1;
    }
    proof {
        assert(p@.subrange(0, 0) =~= Seq::<u8>::empty());
    }
    None
}

/// The extension dot of a path ending in `.xor1` or `.xor2`, and which of
/// the two it is.
fn xor_extension_dot(path: &Vec<u8>) -> (r: Option<(usize, bool)>)
    ensures
        r matches Some(hit) ==> {
            &&& hit.0 as int == dot_index(path@)
            &&& (hit.1 <==> is_xor1(path@))
            &&& (!hit.1 <==> is_xor2(path@))
        },
        r is None ==> !is_xor1(path@) && !is_xor2(path@),
{
    let d = match find_dot(path) {
        Some(d) => d,
        None => {
            return None;
        },
    };
    proof {
        lemma_dot_index_bounds(path@);
    }
    if path.len() - (d + 1) != 4 {
        proof {
            assert(extension_of(path@).len() == path@.len() - (d + 1));
        }
        return None;
    }
    assert(extension_of(path@).len() == 4);
    assert(forall|j: int| 0 <= j < 4 ==> extension_of(path@)[j] == path@[d + 1 + j]);
    if path[d + 1] != LOWER_X || path[d + 2] != LOWER_O || path[d + 3] != LOWER_R {
        proof {
            assert(xor1_ext()[0] == LOWER_X && xor1_ext()[1] == LOWER_O && xor1_ext()[2] == LOWER_R);
            assert(xor2_ext()[0] == LOWER_X && xor2_ext()[1] == LOWER_O && xor2_ext()[2] == LOWER_R);
        }
        return None;
    }
    let last = path[d + 4];
    proof {
        assert(xor1_ext()[3] == DIGIT_ONE);
        assert(xor2_ext()[3] == DIGIT_TWO);
    }
    if last == DIGIT_ONE {
        assert(extension_of(path@) =~= xor1_ext());
        Some((d, true))
    } else if last == DIGIT_TWO {
        assert(extension_of(path@) =~= xor2_ext());
        Some((d, false))
    } else {
        None
    }
}

/// `<path>.<ext>`: plain concatenation with a dot between.
pub fn append_extension(path: &Vec<u8>, ext: &Vec<u8>) -> (r: Vec<u8>)
    ensures
        r@ == path@ + seq![DOT] + ext@,
{
    let mut out = copy_chunk(path, 0, path.len());
    out.push(DOT);
    let mut tail = copy_chunk(ext, 0, ext.len());
    out.append(&mut tail);
    assert(out@ =~= path@ + seq![DOT] + ext@);
    out
}

/// Build `<prefix of path up to and including the dot>xor<digit>`.
fn sibling_with_digit(path: &Vec<u8>, d: usize, digit: u8) -> (r: Vec<u8>)
    requires
        d as int == dot_index(path@),
        0 <= dot_index(path@) < path@.len(),
    ensures
        r@ == with_extension(path@, seq![LOWER_X, LOWER_O, LOWER_R, digit]),
{
    assert(d < path.len());
    let mut out = copy_chunk(path, 0, d + 1);
    out.push(LOWER_X);
    out.push(LOWER_O);
    out.push(LOWER_R);
    out.push(digit);
    assert(out@ =~= with_extension(path@, seq![LOWER_X, LOWER_O, LOWER_R, digit]));
    out
}

/// Given a path ending in `.xor1` or `.xor2`, derive the pair of companion
/// paths, the random part first. A path with any other extension, or none,
/// is rejected. (Whether both files exist is for the caller to check.)
pub fn resolve_xor_pair(input: &Vec<u8>) -> (r: Result<(Vec<u8>, Vec<u8>), SplinchError>)
    ensures
        is_xor1(input@) ==> (r matches Ok(pair) && pair.0@ == input@ && pair.1@ == with_extension(
            input@,
            xor2_ext(),
        )),
        is_xor2(input@) ==> (r matches Ok(pair) && pair.0@ == with_extension(input@, xor1_ext())
            && pair.1@ == input@),
        !is_xor1(input@) && !is_xor2(input@) ==> r == Err::<(Vec<u8>, Vec<u8>), SplinchError>(
            SplinchError::InvalidExtension,
        ),
{
    let hit = match xor_extension_dot(input) {
        Some(hit) => hit,
        None => {
            return Err(SplinchError::InvalidExtension);
        },
    };
    proof {
        lemma_dot_index_bounds(input@);
    }
    let own = copy_chunk(input, 0, input.len());
    assert(own@ =~= input@);
    if hit.1 {
        let partner = sibling_with_digit(input, hit.0, DIGIT_TWO);
        Ok((own, partner))
    } else {
        let partner = sibling_with_digit(input, hit.0, DIGIT_ONE);
        Ok((partner, own))
    }
}

/// Remove a trailing `.xor1`/`.xor2` to recover the original name; any other
/// path is rejected.
pub fn strip_xor_extension(path: &Vec<u8>) -> (r: Result<Vec<u8>, SplinchError>)
    ensures
        is_xor1(path@) || is_xor2(path@) ==> (r matches Ok(base) && base@ == without_extension(
            path@,
        )),
        !is_xor1(path@) && !is_xor2(path@) ==> r == Err::<Vec<u8>, SplinchError>(
            SplinchError::InvalidExtension,
        ),
{
    let hit = match xor_extension_dot(path) {
        Some(hit) => hit,
        None => {
            return Err(SplinchError::InvalidExtension);
        },
    };
    proof {
        lemma_dot_index_bounds(path@);
    }
    Ok(copy_chunk(path, 0, hit.0))
}

/// Decide whether a resolved pair can be combined, from the caller's two
/// existence probes: both companion files must be present.
pub fn check_pair_exists(xor1_exists: bool, xor2_exists: bool) -> (r: Result<(), SplinchError>)
    ensures
        r is Ok <==> xor1_exists && xor2_exists,
        !(xor1_exists && xor2_exists) ==> r == Err::<(), SplinchError>(
            SplinchError::PartnerNotFound,
        ),
{
    if xor1_exists && xor2_exists {
        Ok(())
    } else {
        Err(SplinchError::PartnerNotFound)
    }
}

/// Decimal digits of `n`, most significant first.
pub open spec fn dec_digits(n: nat) -> Seq<u8>
    decreases n,
{
    if n < 10 {
        seq![(48 + n) as u8]
    } else {
        dec_digits(n / 10) + seq![(48 + n % 10) as u8]
    }
}

proof fn lemma_dec_digits_len(n: nat)
    ensures
        dec_digits(n).len() >= 1,
        n >= 10 ==> dec_digits(n).len() >= 2,
    decreases n,
{
    if n >= 10 {
        lemma_dec_digits_len(n / 10);
    }
}

/// Distinct numbers have distinct digit strings.
proof fn lemma_dec_digits_injective(a: nat, b: nat)
    requires
        dec_digits(a) == dec_digits(b),
    ensures
        a == b,
    decreases a,
{
    lemma_dec_digits_len(a);
    lemma_dec_digits_len(b);
    if a < 10 && b < 10 {
        assert(dec_digits(a)[0] == (48 + a) as u8);
        assert(dec_digits(b)[0] == (48 + b) as u8);
        assert(((48 + a) as u8) as int == 48 + a);
        assert(((48 + b) as u8) as int == 48 + b);
    } else if a < 10 {
        assert(dec_digits(a).len() == 1);
    } else if b < 10 {
        assert(dec_digits(b).len() == 1);
    } else {
        let da = dec_digits(a / 10);
        let db = dec_digits(b / 10);
        assert(dec_digits(a).last() == (48 + a % 10) as u8);
        assert(dec_digits(b).last() == (48 + b % 10) as u8);
        assert(((48 + a % 10) as u8) as int == 48 + a % 10);
        assert(((48 + b % 10) as u8) as int == 48 + b % 10);
        assert(da.len() == db.len());
        assert(da =~= dec_digits(a).subrange(0, da.len() as int));
        assert(db =~= dec_digits(b).subrange(0, db.len() as int));
        lemma_dec_digits_injective(a / 10, b / 10);
        assert(a == 10 * (a / 10) + a % 10) by {
            vstd::arithmetic::div_mod::lemma_fundamental_div_mod(a as int, 10);
        }
        assert(b == 10 * (b / 10) + b % 10) by {
            vstd::arithmetic::div_mod::lemma_fundamental_div_mod(b as int, 10);
        }
    }
}

/// What precedes the counter in a numbered candidate.
pub open spec fn cand_prefix(base: Seq<u8>) -> Seq<u8> {
    if has_extension(base) {
        base.subrange(0, dot_index(base)) + seq![DOT]
    } else {
        base + seq![DOT]
    }
}

/// What follows the counter in a numbered candidate.
pub open spec fn cand_suffix(base: Seq<u8>) -> Seq<u8> {
    if has_extension(base) {
        seq![DOT] + base.subrange(dot_index(base) + 1, base.len() as int)
    } else {
        Seq::empty()
    }
}

/// The n-th collision-avoidance candidate: the base's stem, the counter,
/// then the base's extension.
pub open spec fn numbered_candidate(base: Seq<u8>, n: nat) -> Seq<u8> {
    cand_prefix(base) + dec_digits(n) + cand_suffix(base)
}

/// Distinct counters give distinct candidates.
proof fn lemma_candidate_injective(base: Seq<u8>, n1: nat, n2: nat)
    requires
        numbered_candidate(base, n1) == numbered_candidate(base, n2),
    ensures
        n1 == n2,
{
    let p = cand_prefix(base);
    let s = cand_suffix(base);
    let d1 = dec_digits(n1);
    let d2 = dec_digits(n2);
    assert(p + d1 + s == p + d2 + s);
    assert((p + d1 + s).len() == p.len() + d1.len() + s.len());
    assert((p + d2 + s).len() == p.len() + d2.len() + s.len());
    assert(d1.len() == d2.len());
    assert forall|i: int| 0 <= i < d1.len() implies d1[i] == d2[i] by {
        assert((p + d1 + s)[p.len() + i] == d1[i]);
        assert((p + d2 + s)[p.len() + i] == d2[i]);
    }
    assert(d1 =~= d2);
    lemma_dec_digits_injective(n1, n2);
}

/// Is `s` one of the taken names?
pub open spec fn in_names(names: Seq<Seq<u8>>, s: Seq<u8>) -> bool {
    exists|i: int| 0 <= i < names.len() && names[i] == s
}

/// `r` is the n-th candidate, it is free, and every earlier one is taken.
pub open spec fn resolved_at(base: Seq<u8>, names: Seq<Seq<u8>>, r: Seq<u8>, n: nat) -> bool {
    &&& 1 <= n
    &&& r == numbered_candidate(base, n)
    &&& !in_names(names, numbered_candidate(base, n))
    &&& forall|m: nat| 1 <= m < n ==> in_names(names, #[trigger] numbered_candidate(base, m))
}

/// What the collision-avoiding output name must be, given the names already
/// taken: the base itself when free, else the first numbered candidate that
/// is free.
pub open spec fn is_resolved_output(base: Seq<u8>, names: Seq<Seq<u8>>, r: Seq<u8>) -> bool {
    if !in_names(names, base) {
        r == base
    } else {
        exists|n: nat| resolved_at(base, names, r, n)
    }
}

/// The resolved output name is a function of the base and the taken names:
/// any two names that both satisfy the resolution contract are equal.
pub proof fn lemma_resolve_output_deterministic(
    base: Seq<u8>,
    names: Seq<Seq<u8>>,
    r1: Seq<u8>,
    r2: Seq<u8>,
)
    requires
        is_resolved_output(base, names, r1),
        is_resolved_output(base, names, r2),
    ensures
        r1 == r2,
{
    if in_names(names, base) {
        let n1 = choose|n: nat| resolved_at(base, names, r1, n);
        let n2 = choose|n: nat| resolved_at(base, names, r2, n);
        if n1 < n2 {
            assert(in_names(names, numbered_candidate(base, n1)));
            assert(false);
        }
        if n2 < n1 {
            assert(in_names(names, numbered_candidate(base, n2)));
            assert(false);
        }
    }
}

/// The candidates numbered 1 through `n`, as a set.
spec fn candidate_set(base: Seq<u8>, n: nat) -> Set<Seq<u8>> {
    Set::new(|s: Seq<u8>| exists|m: nat| 1 <= m <= n && s == #[trigger] numbered_candidate(base, m))
}

proof fn lemma_candidate_set_card(base: Seq<u8>, n: nat)
    ensures
        candidate_set(base, n).finite(),
        candidate_set(base, n).len() == n,
    decreases n,
{
    broadcast use vstd::set::group_set_axioms;

    if n == 0 {
        assert(candidate_set(base, 0) =~= Set::<Seq<u8>>::empty());
    } else {
        let prev_n = (n - 1) as nat;
        lemma_candidate_set_card(base, prev_n);
        let prev = candidate_set(base, prev_n);
        let c = numbered_candidate(base, n);
        assert forall|s: Seq<u8>| candidate_set(base, n).contains(s) implies prev.insert(
            c,
        ).contains(s) by {
            let m = choose|m: nat| 1 <= m <= n && s == numbered_candidate(base, m);
            if m <= prev_n {
                assert(prev.contains(s));
            } else {
                assert(s == c);
            }
        }
        assert forall|s: Seq<u8>| prev.insert(c).contains(s) implies candidate_set(
            base,
            n,
        ).contains(s) by {
            if prev.contains(s) {
                let m = choose|m: nat| 1 <= m <= prev_n && s == numbered_candidate(base, m);
                assert(1 <= m <= n && s == numbered_candidate(base, m));
            } else {
                assert(s == numbered_candidate(base, n));
            }
        }
        assert(candidate_set(base, n) =~= prev.insert(c));
        assert(!prev.contains(c)) by {
            if prev.contains(c) {
                let m = choose|m: nat| 1 <= m <= prev_n && c == numbered_candidate(base, m);
                lemma_candidate_injective(base, n, m);
            }
        }
    }
}

/// If the candidates numbered 1 through `n` are all taken, there are at
/// least `n` taken names.
proof fn lemma_candidates_pigeonhole(base: Seq<u8>, names: Seq<Seq<u8>>, n: nat)
    requires
        forall|m: nat| 1 <= m <= n ==> in_names(names, #[trigger] numbered_candidate(base, m)),
    ensures
        n <= names.len(),
{
    broadcast use vstd::set::group_set_axioms;
    broadcast use vstd::seq_lib::seq_to_set_is_finite;

    lemma_candidate_set_card(base, n);
    let cs = candidate_set(base, n);
    assert forall|s: Seq<u8>| cs.contains(s) implies names.to_set().contains(s) by {
        let m = choose|m: nat| 1 <= m <= n && s == numbered_candidate(base, m);
        assert(in_names(names, s));
        let i = choose|i: int| 0 <= i < names.len() && names[i] == s;
        assert(names.contains(s));
    }
    names.lemma_cardinality_of_set();
    vstd::set_lib::lemma_len_subset(cs, names.to_set());
}

/// Append the decimal digits of `n`.
fn push_dec(n: usize, out: &mut Vec<u8>)
    ensures
        final(out)@ == old(out)@ + dec_digits(n as nat),
    decreases n,
{
    if n < 10 {
        out.push(48 + (n as u8));
        assert(out@ =~= old(out)@ + dec_digits(n as nat));
    } else {
        push_dec(n / 10, out);
        out.push(48 + ((n % 10) as u8));
        assert(out@ =~= old(out)@ + dec_digits(n as nat));
    }
}

/// Is the byte string one of the listed names?
fn member(list: &Vec<Vec<u8>>, x: &Vec<u8>) -> (r: bool)
    ensures
        r == in_names(list.deep_view(), x@),
{
    let ghost names = list.deep_view();
    let mut i: usize = 0;
    while i < list.len()
        invariant
            i <= list.len(),
            names == list.deep_view(),
            names.len() == list@.len(),
            forall|j: int| 0 <= j < i ==> names[j] != x@,
        decreases list.len() - i,
    {
        assert(names[i as int] =~= list@[i as int]@);
        if bytes_eq(&list[i], x) {
            return true;
        }
        i = i + 1;
    }
    false
}

/// Build the n-th collision-avoidance candidate for the base name.
fn make_candidate(base: &Vec<u8>, n: usize) -> (r: Vec<u8>)
    ensures
        r@ == numbered_candidate(base@, n as nat),
{
    proof {
        lemma_dot_index_bounds(base@);
    }
    match find_dot(base) {
        Some(d) => {
            assert(d < base.len());
            let mut out = copy_chunk(base, 0, d);
            out.push(DOT);
            push_dec(n, &mut out);
            out.push(DOT);
            let mut tail = copy_chunk(base, d + 1, base.len() - (d + 1));
            out.append(&mut tail);
            assert(out@ =~= numbered_candidate(base@, n as nat));
            out
        },
        None => {
            let mut out = copy_chunk(base, 0, base.len());
            out.push(DOT);
            push_dec(n, &mut out);
            assert(out@ =~= numbered_candidate(base@, n as nat));
            out
        },
    }
}

/// Pick a non-colliding output name: the base itself when it is not among
/// the taken names, else the first `stem.n.ext` (counting `n` up from 1)
/// that is not taken. Deterministic for a fixed set of taken names, and
/// never returns a taken name.
pub fn resolve_output_path(base: &Vec<u8>, existing: &Vec<Vec<u8>>) -> (r: Vec<u8>)
    requires
        existing.len() < usize::MAX,
    ensures
        is_resolved_output(base@, existing.deep_view(), r@),
{
    let ghost names = existing.deep_view();
    if !member(existing, base) {
        let out = copy_chunk(base, 0, base.len());
        assert(out@ =~= base@);
        return out;
    }
    let mut n: usize = 1;
    loop
        invariant
            1 <= n <= existing.len() + 1,
            existing.len() < usize::MAX,
            names == existing.deep_view(),
            names.len() == existing@.len(),
            in_names(names, base@),
            forall|m: nat| 1 <= m < n ==> in_names(names, #[trigger] numbered_candidate(base@, m)),
        decreases existing.len() + 1 - n,
    {
        let c = make_candidate(base, n);
        if !member(existing, &c) {
            proof {
                assert(resolved_at(base@, names, c@, n as nat));
            }
            return c;
        }
        proof {
            assert forall|m: nat|
                1 <= m <= n implies in_names(names, #[trigger] numbered_candidate(base@, m)) by {
                if m < n {
                } else {
                    assert(numbered_candidate(base@, m) == c@);
                }
            }
            lemma_candidates_pigeonhole(base@, names, n as nat);
        }
        n = n + 1;
    }
}

} // verus!
