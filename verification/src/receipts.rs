use vstd::prelude::*;
use vstd::relations::injective_on;
use vstd::set_lib::lemma_int_range;
use vstd::set_lib::lemma_len_subset;
use vstd::set_lib::lemma_map_size;
use vstd::set_lib::set_int_range;
use vstd::string::StrSliceExecFns;
use vstd::string::StringExecFns;

use crate::paths::files_contain;
use crate::paths::find_str;
use crate::paths::lemma_find_str;
use crate::paths::seq_views;

verus! {

// A stored attachment file gets a name nobody else carries: the wanted
// name when it is free, else the first `stem_counter.ext` variant that
// is. File names are compared as plain text against the existing names.

/// The character of one decimal digit.
pub open spec fn digit_char(d: int) -> char {
    if d == 0 {
        '0'
    } else if d == 1 {
        '1'
    } else if d == 2 {
        '2'
    } else if d == 3 {
        '3'
    } else if d == 4 {
        '4'
    } else if d == 5 {
        '5'
    } else if d == 6 {
        '6'
    } else if d == 7 {
        '7'
    } else if d == 8 {
        '8'
    } else {
        '9'
    }
}

/// The decimal digits of a number, most significant first.
pub open spec fn dec_digits(n: nat) -> Seq<char>
    decreases n,
{
    if n < 10 {
        seq![digit_char(n as int)]
    } else {
        dec_digits(n / 10).push(digit_char((n % 10) as int))
    }
}

proof fn lemma_dec_len(n: nat)
    ensures
        dec_digits(n).len() >= 1,
        n >= 10 ==> dec_digits(n).len() >= 2,
    decreases n,
{
    if n >= 10 {
        lemma_dec_len(n / 10);
    }
}

proof fn lemma_digit_char_injective(a: int, b: int)
    requires
        0 <= a < 10,
        0 <= b < 10,
        digit_char(a) == digit_char(b),
    ensures
        a == b,
{
}

/// Distinct numbers render as distinct digit strings.
proof fn lemma_dec_digits_injective(a: nat, b: nat)
    requires
        dec_digits(a) == dec_digits(b),
    ensures
        a == b,
    decreases a,
{
    lemma_dec_len(a);
    lemma_dec_len(b);
    if a < 10 && b < 10 {
        assert(dec_digits(a)[0] == digit_char(a as int));
        assert(dec_digits(b)[0] == digit_char(b as int));
        lemma_digit_char_injective(a as int, b as int);
    } else if a < 10 {
        assert(dec_digits(a).len() == 1);
        assert(dec_digits(b).len() >= 2);
    } else if b < 10 {
        assert(dec_digits(b).len() == 1);
        assert(dec_digits(a).len() >= 2);
    } else {
        assert(dec_digits(a).last() == digit_char((a % 10) as int));
        assert(dec_digits(b).last() == digit_char((b % 10) as int));
        lemma_digit_char_injective((a % 10) as int, (b % 10) as int);
        assert(dec_digits(a).drop_last() =~= dec_digits(a / 10));
        assert(dec_digits(b).drop_last() =~= dec_digits(b / 10));
        lemma_dec_digits_injective(a / 10, b / 10);
    }
}

/// Position of the last `.`, `-1` when there is none.
pub open spec fn last_dot(s: Seq<char>) -> int
    decreases s.len(),
{
    if s.len() == 0 {
        -1
    } else if s.last() == '.' {
        s.len() - 1
    } else {
        last_dot(s.drop_last())
    }
}

/// The name before its extension; a leading dot belongs to the name, and
/// an empty name falls back to a generic word.
pub open spec fn stem_of(s: Seq<char>) -> Seq<char> {
    let d = last_dot(s);
    let st = if d <= 0 {
        s
    } else {
        s.take(d)
    };
    if st.len() == 0 {
        "beleg"@
    } else {
        st
    }
}

/// The extension after the last dot; empty when there is none or the
/// only dot leads the name.
pub open spec fn ext_of(s: Seq<char>) -> Seq<char> {
    let d = last_dot(s);
    if d <= 0 {
        Seq::empty()
    } else {
        s.skip(d + 1)
    }
}

/// The `k`-th fallback name for a wanted file name.
pub open spec fn candidate_name(s: Seq<char>, k: nat) -> Seq<char> {
    stem_of(s) + seq!['_'] + dec_digits(k) + (if ext_of(s).len() > 0 {
        seq!['.'] + ext_of(s)
    } else {
        Seq::empty()
    })
}

/// Distinct counters give distinct fallback names.
proof fn lemma_candidate_injective(s: Seq<char>, a: nat, b: nat)
    requires
        candidate_name(s, a) == candidate_name(s, b),
    ensures
        a == b,
{
    let st = stem_of(s);
    let da = dec_digits(a);
    let db = dec_digits(b);
    let tail = if ext_of(s).len() > 0 {
        seq!['.'] + ext_of(s)
    } else {
        Seq::<char>::empty()
    };
    lemma_dec_len(a);
    lemma_dec_len(b);
    assert(candidate_name(s, a).len() == st.len() + 1 + da.len() + tail.len());
    assert(candidate_name(s, b).len() == st.len() + 1 + db.len() + tail.len());
    assert(da.len() == db.len());
    assert(da =~= candidate_name(s, a).subrange(
        st.len() as int + 1,
        st.len() as int + 1 + da.len() as int,
    ));
    assert(db =~= candidate_name(s, b).subrange(
        st.len() as int + 1,
        st.len() as int + 1 + db.len() as int,
    ));
    lemma_dec_digits_injective(a, b);
}

/// Among more candidates than existing names, some candidate is free.
proof fn lemma_some_candidate_free(files: Seq<Seq<char>>, s: Seq<char>, n: int)
    requires
        n > files.len(),
    ensures
        exists|j: int| 1 <= j <= n && find_str(files, #[trigger] candidate_name(s, j as nat)) == -1,
{
    broadcast use vstd::seq_lib::seq_to_set_is_finite;
    broadcast use vstd::set::group_set_axioms;

    if forall|j: int| 1 <= j <= n ==> find_str(files, #[trigger] candidate_name(s, j as nat)) >= 0 {
        // Then the candidates would be that many distinct taken names —
        // more than there are names: impossible.
        let f = |j: int| candidate_name(s, j as nat);
        let dom = set_int_range(1, n + 1);
        lemma_int_range(1, n + 1);
        assert(injective_on(f, dom)) by {
            assert forall|x1: int, x2: int|
                dom.contains(x1) && dom.contains(x2) && #[trigger] f(x1) == #[trigger] f(x2)
                implies x1 == x2 by {
                lemma_candidate_injective(s, x1 as nat, x2 as nat);
            }
        }
        let image = dom.map(f);
        lemma_map_size(dom, image, f);
        assert(image.len() == n);
        assert(image.subset_of(files.to_set())) by {
            assert forall|x: Seq<char>| image.contains(x) implies files.to_set().contains(x) by {
                let j = choose|j: int| dom.contains(j) && #[trigger] f(j) == x;
                assert(find_str(files, candidate_name(s, j as nat)) >= 0);
                lemma_find_str(files, x);
                assert(find_str(files, x) >= 0);
                assert(files[find_str(files, x)] == x);
                assert(files.contains(x));
            }
        }
        lemma_len_subset(image, files.to_set());
        files.lemma_cardinality_of_set();
        assert(false);
    } else {
        let j = choose|j: int|
            !(1 <= j <= n ==> find_str(files, #[trigger] candidate_name(s, j as nat)) >= 0);
        lemma_find_str(files, candidate_name(s, j as nat));
        assert(1 <= j <= n && find_str(files, candidate_name(s, j as nat)) == -1);
    }
}

/// One decimal digit as text.
fn digit_str(d: u64) -> (r: &'static str)
    requires
        d <= 9,
    ensures
        r@ == seq![digit_char(d as int)],
{
    proof {
        reveal_strlit("0");
        reveal_strlit("1");
        reveal_strlit("2");
        reveal_strlit("3");
        reveal_strlit("4");
        reveal_strlit("5");
        reveal_strlit("6");
        reveal_strlit("7");
        reveal_strlit("8");
        reveal_strlit("9");
    }
    let r: &'static str = if d == 0 {
        "0"
    } else if d == 1 {
        "1"
    } else if d == 2 {
        "2"
    } else if d == 3 {
        "3"
    } else if d == 4 {
        "4"
    } else if d == 5 {
        "5"
    } else if d == 6 {
        "6"
    } else if d == 7 {
        "7"
    } else if d == 8 {
        "8"
    } else {
        "9"
    };
    assert(r@ =~= seq![digit_char(d as int)]);
    r
}

/// Decimal rendering of a counter.
fn u64_to_decimal(n: u64) -> (r: String)
    ensures
        r@ == dec_digits(n as nat),
    decreases n,
{
    if n < 10 {
        digit_str(n).to_owned()
    } else {
        let mut s = u64_to_decimal(n / 10);
        s.append(digit_str(n % 10));
        proof {
            assert(dec_digits((n / 10) as nat).push(digit_char((n % 10) as int)) =~= dec_digits(
                (n / 10) as nat,
            ) + seq![digit_char((n % 10) as int)]);
        }
        s
    }
}

/// Position of the last `.` in the name.
fn last_dot_index(s: &str) -> (r: Option<usize>)
    ensures
        match r {
            Some(i) => i < s@.len() && last_dot(s@) == i,
            None => last_dot(s@) == -1,
        },
{
    let n = s.unicode_len();
    let mut j: usize = n;
    proof {
        assert(s@.take(n as int) =~= s@);
    }
    while j > 0
        invariant
            j <= n,
            n == s@.len(),
            last_dot(s@) == last_dot(s@.take(j as int)),
        decreases j,
    {
        let c = s.get_char(j - 1);
        proof {
            assert(s@.take(j as int).last() == s@[j as int - 1]);
            assert(s@.take(j as int).drop_last() =~= s@.take(j as int - 1));
        }
        if c == '.' {
            assert(last_dot(s@.take(j as int)) == j - 1);
            return Some(j - 1);
        }
        j = j - 1;
    }
    proof {
        assert(s@.take(0) =~= Seq::<char>::empty());
    }
    None
}

/// Pick an unused file name: the wanted name when no existing file
/// carries it, else the first `stem_counter.ext` variant free of
/// clashes; earlier counters are all taken.
pub fn unique_receipt_path(file_name: &str, existing: &Vec<String>) -> (r: String)
    requires
        existing@.len() < 0x1000_0000_0000_0000,
    ensures
        find_str(seq_views(existing@), r@) == -1,
        find_str(seq_views(existing@), file_name@) == -1 ==> r@ == file_name@,
        find_str(seq_views(existing@), file_name@) >= 0 ==> exists|k: nat|
            1 <= k && r@ == candidate_name(file_name@, k) && (forall|j: nat|
                1 <= j < k ==> find_str(
                    seq_views(existing@),
                    #[trigger] candidate_name(file_name@, j),
                ) >= 0),
{
    let ghost fvs = seq_views(existing@);
    proof {
        lemma_find_str(fvs, file_name@);
    }
    if !files_contain(existing, file_name) {
        return file_name.to_owned();
    }
    assert(find_str(fvs, file_name@) >= 0);
    // Split the wanted name into stem and extension.
    let n = file_name.unicode_len();
    proof {
        reveal_strlit("");
    }
    assert(""@ =~= Seq::<char>::empty());
    let mut stem: &str = file_name;
    let mut ext: &str = "";
    if let Some(d) = last_dot_index(file_name) {
        if d > 0 {
            stem = file_name.substring_char(0, d);
            ext = file_name.substring_char(d + 1, n);
        }
    }
    let stem: &str = if stem.unicode_len() == 0 {
        "beleg"
    } else {
        stem
    };
    proof {
        reveal_strlit("beleg");
        assert(stem@ == stem_of(file_name@));
        assert(ext@ == ext_of(file_name@));
    }
    let mut i: u64 = 0;
    let bound: u64 = existing.len() as u64;
    while i <= bound
        invariant
            i <= bound + 1,
            bound == existing@.len(),
            existing@.len() < 0x1000_0000_0000_0000,
            fvs == seq_views(existing@),
            find_str(fvs, file_name@) >= 0,
            stem@ == stem_of(file_name@),
            ext@ == ext_of(file_name@),
            forall|j: nat|
                1 <= j <= i ==> find_str(fvs, #[trigger] candidate_name(file_name@, j)) >= 0,
        decreases bound + 1 - i,
    {
        let k = i + 1;
        let mut name = stem.to_owned();
        name.append("_");
        let digits = u64_to_decimal(k);
        name.append(digits.as_str());
        if ext.unicode_len() > 0 {
            name.append(".");
            name.append(ext);
        }
        proof {
            reveal_strlit("_");
            reveal_strlit(".");
            assert("_"@ =~= seq!['_']);
            assert("."@ =~= seq!['.']);
            assert(name@ =~= candidate_name(file_name@, k as nat));
            lemma_find_str(fvs, name@);
        }
        if !files_contain(existing, name.as_str()) {
            proof {
                assert(find_str(fvs, name@) == -1);
                assert(1 <= k as nat && name@ == candidate_name(file_name@, k as nat));
                assert(forall|j: nat|
                    1 <= j < k as nat ==> find_str(
                        fvs,
                        #[trigger] candidate_name(file_name@, j),
                    ) >= 0);
            }
            return name;
        }
        i = i + 1;
    }
    // More candidates than existing names were all taken: impossible.
    proof {
        lemma_some_candidate_free(fvs, file_name@, bound as int + 1);
        let j = choose|j: int|
            1 <= j <= bound + 1 && find_str(fvs, #[trigger] candidate_name(file_name@, j as nat))
                == -1;
        assert(1 <= j as nat <= i);
        assert(find_str(fvs, candidate_name(file_name@, j as nat)) >= 0);
        assert(false);
    }
    file_name.to_owned()
}

} // verus!
