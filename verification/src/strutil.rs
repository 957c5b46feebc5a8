use vstd::prelude::*;
use vstd::string::StrSliceExecFns;

verus! {

/// Lexicographic "greater than" on character sequences. Fixed-width
/// timestamp strings that cannot be parsed as calendar timestamps are
/// compared with this order.
pub open spec fn lex_gt(a: Seq<char>, b: Seq<char>) -> bool
    decreases a.len(),
{
    if b.len() == 0 {
        a.len() > 0
    } else if a.len() == 0 {
        false
    } else if a[0] == b[0] {
        lex_gt(a.skip(1), b.skip(1))
    } else {
        a[0] > b[0]
    }
}

/// No sequence is lexicographically greater than itself.
pub proof fn lemma_lex_gt_irrefl(a: Seq<char>)
    ensures
        !lex_gt(a, a),
    decreases a.len(),
{
    if a.len() > 0 {
        lemma_lex_gt_irrefl(a.skip(1));
    }
}

/// For distinct sequences, exactly one direction of `lex_gt` holds:
/// the order is strict and total.
pub proof fn lemma_lex_gt_asymmetric(a: Seq<char>, b: Seq<char>)
    requires
        a != b,
    ensures
        lex_gt(a, b) <==> !lex_gt(b, a),
    decreases a.len(),
{
    if a.len() == 0 && b.len() == 0 {
        assert(a =~= b);
    } else if a.len() == 0 || b.len() == 0 {
    } else if a[0] == b[0] {
        if a.skip(1) == b.skip(1) {
            assert(a.skip(1).len() == b.skip(1).len());
            assert(a.len() == b.len());
            assert(a =~= b) by {
                assert forall|i: int| 0 <= i < a.len() implies a[i] == b[i] by {
                    if i > 0 {
                        assert(a[i] == a.skip(1)[i - 1]);
                        assert(b[i] == b.skip(1)[i - 1]);
                    }
                }
            }
        }
        lemma_lex_gt_asymmetric(a.skip(1), b.skip(1));
    }
}

/// Character-by-character equality test on string slices, proved against
/// the sequence views.
pub fn str_eq(a: &str, b: &str) -> (r: bool)
    ensures
        r == (a@ == b@),
{
    let alen = a.unicode_len();
    let blen = b.unicode_len();
    if alen != blen {
        return false;
    }
    let mut i: usize = 0;
    while i < alen
        invariant
            i <= alen,
            alen == a@.len(),
            alen == b@.len(),
            forall|j: int| 0 <= j < i ==> a@[j] == b@[j],
        decreases alen - i,
    {
        let ca = a.get_char(i);
        let cb = b.get_char(i);
        if ca != cb {
            return false;
        }
        i = i + 1;
    }
    assert(a@ =~= b@);
    true
}

/// Character-by-character lexicographic comparison, proved equal to `lex_gt`.
pub fn str_lex_gt(a: &str, b: &str) -> (r: bool)
    ensures
        r == lex_gt(a@, b@),
{
    let alen = a.unicode_len();
    let blen = b.unicode_len();
    let min: usize = if alen < blen { alen } else { blen };
    assert(a@.skip(0) =~= a@);
    assert(b@.skip(0) =~= b@);
    let mut i: usize = 0;
    while i < min
        invariant
            i <= min,
            min <= alen,
            min <= blen,
            alen == a@.len(),
            blen == b@.len(),
            lex_gt(a@, b@) == lex_gt(a@.skip(i as int), b@.skip(i as int)),
        decreases min - i,
    {
        let ca = a.get_char(i);
        let cb = b.get_char(i);
        assert(a@.skip(i as int)[0] == a@[i as int]);
        assert(b@.skip(i as int)[0] == b@[i as int]);
        if ca != cb {
            return ca > cb;
        }
        assert(a@.skip(i as int).skip(1) =~= a@.skip(i as int + 1));
        assert(b@.skip(i as int).skip(1) =~= b@.skip(i as int + 1));
        i = i + 1;
    }
    assert(a@.skip(min as int).len() == alen - min);
    assert(b@.skip(min as int).len() == blen - min);
    alen > blen
}

/// View of an optional owned string.
pub open spec fn opt_view(o: Option<String>) -> Option<Seq<char>> {
    match o {
        Some(s) => Some(s@),
        None => None,
    }
}

/// View of an optional string slice.
pub open spec fn opt_str_view(o: Option<&str>) -> Option<Seq<char>> {
    match o {
        Some(s) => Some(s@),
        None => None,
    }
}

/// Copy an optional string, preserving its view.
pub fn clone_opt_string(o: &Option<String>) -> (r: Option<String>)
    ensures
        opt_view(r) == opt_view(*o),
{
    match o {
        Some(s) => Some(s.clone()),
        None => None,
    }
}

/// ASCII whitespace, as stripped from pairing codes before comparison.
pub open spec fn is_ascii_space(c: char) -> bool {
    c == ' ' || c == '\t' || c == '\n' || c == '\r'
}

/// First position at or after `i` that does not hold ASCII whitespace.
pub open spec fn space_end(s: Seq<char>, i: int) -> int
    decreases s.len() - i,
{
    if i < s.len() && is_ascii_space(s[i]) {
        space_end(s, i + 1)
    } else {
        i
    }
}

/// Last position at or before `i` preceded only by non-whitespace there.
pub open spec fn space_start_back(s: Seq<char>, i: int) -> int
    decreases i,
{
    if i > 0 && is_ascii_space(s[i - 1]) {
        space_start_back(s, i - 1)
    } else {
        i
    }
}

/// The string with leading and trailing ASCII whitespace removed.
pub open spec fn trim_spec(s: Seq<char>) -> Seq<char> {
    let a = space_end(s, 0);
    let b = space_start_back(s, s.len() as int);
    if a <= b {
        s.subrange(a, b)
    } else {
        Seq::empty()
    }
}

/// Below a position preceded only by whitespace, the backward scan
/// reaches the start of the string.
proof fn lemma_space_start_back_all(s: Seq<char>, i: int)
    requires
        0 <= i,
        forall|k: int| 0 <= k < i ==> is_ascii_space(#[trigger] s[k]),
    ensures
        space_start_back(s, i) == 0,
    decreases i,
{
    if i > 0 {
        lemma_space_start_back_all(s, i - 1);
    }
}

/// Whether the character at `i` is ASCII whitespace.
fn is_space_at(s: &str, i: usize) -> (r: bool)
    requires
        i < s@.len(),
    ensures
        r == is_ascii_space(s@[i as int]),
{
    let c = s.get_char(i);
    c == ' ' || c == '\t' || c == '\n' || c == '\r'
}

/// Strip leading and trailing ASCII whitespace.
pub fn str_trim(s: &str) -> (r: &str)
    ensures
        r@ == trim_spec(s@),
{
    let n = s.unicode_len();
    let mut a: usize = 0;
    while a < n && is_space_at(s, a)
        invariant
            a <= n,
            n == s@.len(),
            space_end(s@, 0) == space_end(s@, a as int),
            forall|k: int| 0 <= k < a ==> is_ascii_space(#[trigger] s@[k]),
        decreases n - a,
    {
        assert(space_end(s@, a as int) == space_end(s@, a as int + 1));
        a = a + 1;
    }
    assert(space_end(s@, a as int) == a);
    if a == n {
        // The whole string is whitespace (possibly empty).
        proof {
            lemma_space_start_back_all(s@, n as int);
        }
        assert(trim_spec(s@) =~= ""@) by {
            reveal_strlit("");
        }
        return "";
    }
    assert(!is_ascii_space(s@[a as int]));
    let mut b: usize = n;
    while b > a && is_space_at(s, b - 1)
        invariant
            a < b <= n,
            a < n,
            n == s@.len(),
            !is_ascii_space(s@[a as int]),
            space_start_back(s@, n as int) == space_start_back(s@, b as int),
        decreases b,
    {
        assert(space_start_back(s@, b as int) == space_start_back(s@, b as int - 1));
        // The scan cannot pass the non-whitespace character at `a`.
        assert(b - 1 > a);
        b = b - 1;
    }
    assert(!is_ascii_space(s@[b - 1]));
    assert(space_start_back(s@, b as int) == b);
    s.substring_char(a, b)
}

/// ASCII lower-casing of a single character, as a code point.
pub open spec fn lower_code(c: char) -> u32 {
    if 'A' as u32 <= c as u32 && c as u32 <= 'Z' as u32 {
        (c as u32 + 32) as u32
    } else {
        c as u32
    }
}

/// Equality up to ASCII case, pointwise on the two views.
pub open spec fn eq_ignore_ascii_case_spec(a: Seq<char>, b: Seq<char>) -> bool {
    a.len() == b.len() && forall|i: int| 0 <= i < a.len() ==> lower_code(a[i]) == lower_code(b[i])
}

/// ASCII-case-insensitive equality test on string slices.
pub fn str_eq_ignore_ascii_case(a: &str, b: &str) -> (r: bool)
    ensures
        r == eq_ignore_ascii_case_spec(a@, b@),
{
    let alen = a.unicode_len();
    let blen = b.unicode_len();
    if alen != blen {
        return false;
    }
    let mut i: usize = 0;
    while i < alen
        invariant
            i <= alen,
            alen == a@.len(),
            alen == b@.len(),
            forall|j: int| 0 <= j < i ==> lower_code(a@[j]) == lower_code(b@[j]),
        decreases alen - i,
    {
        let ca = a.get_char(i) as u32;
        let cb = b.get_char(i) as u32;
        let la = if 65 <= ca && ca <= 90 { ca + 32 } else { ca };
        let lb = if 65 <= cb && cb <= 90 { cb + 32 } else { cb };
        if la != lb {
            return false;
        }
        i = i + 1;
    }
    true
}

} // verus!
