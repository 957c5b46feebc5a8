use vstd::prelude::*;
use vstd::string::StrSliceExecFns;
use vstd::string::StringExecFns;

use crate::strutil::str_trim;
use crate::strutil::trim_spec;

verus! {

// Small text-shaping rules of the ledger: CSV field quoting and the
// labels given to imported payment records.

/// Whether a CSV field must be quoted: it holds a comma, a quote or a
/// line break.
pub open spec fn needs_quoting(s: Seq<char>) -> bool {
    exists|i: int| 0 <= i < s.len() && ((#[trigger] s[i]) == ',' || s[i] == '"' || s[i] == '\n')
}

/// The field's characters with every quote doubled.
pub open spec fn escape_inner(s: Seq<char>) -> Seq<char>
    decreases s.len(),
{
    if s.len() == 0 {
        Seq::empty()
    } else {
        escape_inner(s.drop_last()) + (if s.last() == '"' {
            seq!['"', '"']
        } else {
            seq![s.last()]
        })
    }
}

/// A CSV field as written: quoted with doubled quotes when it holds a
/// comma, a quote or a line break, verbatim otherwise.
pub open spec fn escape_csv_spec(s: Seq<char>) -> Seq<char> {
    if needs_quoting(s) {
        seq!['"'] + escape_inner(s) + seq!['"']
    } else {
        s
    }
}

/// A quote-free stretch passes through the escaping unchanged.
proof fn lemma_escape_inner_extend(s: Seq<char>, a: int, b: int)
    requires
        0 <= a <= b <= s.len(),
        forall|k: int| a <= k < b ==> (#[trigger] s[k]) != '"',
    ensures
        escape_inner(s.take(b)) == escape_inner(s.take(a)) + s.subrange(a, b),
    decreases b - a,
{
    if a == b {
        assert(s.subrange(a, a) =~= Seq::<char>::empty());
        assert(escape_inner(s.take(a)) + Seq::<char>::empty() =~= escape_inner(s.take(a)));
    } else {
        lemma_escape_inner_extend(s, a, b - 1);
        assert(s.take(b).drop_last() =~= s.take(b - 1));
        assert(s.take(b).last() == s[b - 1]);
        assert(escape_inner(s.take(b)) == escape_inner(s.take(b - 1)) + seq![s[b - 1]]);
        assert((escape_inner(s.take(a)) + s.subrange(a, b - 1)) + seq![s[b - 1]] =~= escape_inner(
            s.take(a),
        ) + s.subrange(a, b));
    }
}

/// Whether the character at `i` forces quoting.
fn special_at(s: &str, i: usize) -> (r: bool)
    requires
        i < s@.len(),
    ensures
        r == (s@[i as int] == ',' || s@[i as int] == '"' || s@[i as int] == '\n'),
{
    let c = s.get_char(i);
    c == ',' || c == '"' || c == '\n'
}

/// Escape one CSV field: quote and double quotes when the field holds a
/// comma, a quote or a line break; hand it back verbatim otherwise.
pub fn escape_csv(value: &str) -> (r: String)
    ensures
        r@ == escape_csv_spec(value@),
{
    let n = value.unicode_len();
    let mut needs = false;
    let mut i: usize = 0;
    while i < n && !needs
        invariant
            i <= n,
            n == value@.len(),
            needs ==> needs_quoting(value@),
            !needs ==> forall|k: int|
                0 <= k < i ==> !((#[trigger] value@[k]) == ',' || value@[k] == '"' || value@[k]
                    == '\n'),
        decreases n - i + (if needs {
            0int
        } else {
            1int
        }),
    {
        if special_at(value, i) {
            needs = true;
        } else {
            i = i + 1;
        }
    }
    if !needs {
        assert(!needs_quoting(value@));
        return value.to_owned();
    }
    assert(needs_quoting(value@));
    let mut out = "\"".to_owned();
    let mut start: usize = 0;
    let mut j: usize = 0;
    proof {
        reveal_strlit("\"");
        assert("\""@ =~= seq!['"']);
        assert(value@.take(0) =~= Seq::<char>::empty());
        assert(out@ =~= seq!['"'] + escape_inner(value@.take(0)));
    }
    while j < n
        invariant
            start <= j <= n,
            n == value@.len(),
            out@ == seq!['"'] + escape_inner(value@.take(start as int)),
            needs_quoting(value@),
            forall|k: int| start <= k < j ==> (#[trigger] value@[k]) != '"',
        decreases n - j,
    {
        let c = value.get_char(j);
        if c == '"' {
            proof {
                lemma_escape_inner_extend(value@, start as int, j as int);
            }
            out.append(value.substring_char(start, j));
            out.append("\"\"");
            proof {
                reveal_strlit("\"\"");
                assert("\"\""@ =~= seq!['"', '"']);
                assert(value@.take(j as int + 1).drop_last() =~= value@.take(j as int));
                assert(value@.take(j as int + 1).last() == value@[j as int]);
                assert(out@ =~= seq!['"'] + escape_inner(value@.take(j as int + 1)));
            }
            j = j + 1;
            start = j;
        } else {
            j = j + 1;
        }
    }
    proof {
        lemma_escape_inner_extend(value@, start as int, n as int);
    }
    out.append(value.substring_char(start, n));
    out.append("\"");
    proof {
        reveal_strlit("\"");
        assert("\""@ =~= seq!['"']);
        assert(value@.take(n as int) =~= value@);
        assert(out@ =~= seq!['"'] + escape_inner(value@) + seq!['"']);
    }
    out
}

/// View of an optional string slice's trimmed text; empty when absent.
pub open spec fn trimmed_or_empty(o: Option<&str>) -> Seq<char> {
    match o {
        Some(s) => trim_spec(s@),
        None => Seq::empty(),
    }
}

/// The note an imported payment record carries: the trimmed reference
/// (prefixed) and the trimmed description, joined, under an import
/// heading; the bare heading when both are empty.
pub open spec fn twint_note_spec(r: Option<&str>, d: Option<&str>) -> Seq<char> {
    let rt = trimmed_or_empty(r);
    let dt = trimmed_or_empty(d);
    if rt.len() == 0 && dt.len() == 0 {
        "TWINT Import"@
    } else if rt.len() > 0 && dt.len() > 0 {
        "TWINT Import: Ref "@ + rt + " | "@ + dt
    } else if rt.len() > 0 {
        "TWINT Import: Ref "@ + rt
    } else {
        "TWINT Import: "@ + dt
    }
}

/// Build the note of an imported payment record.
pub fn build_twint_note(reference: Option<&str>, description: Option<&str>) -> (r: Option<String>)
    ensures
        r matches Some(s) && s@ == twint_note_spec(reference, description),
{
    let rt: &str = match reference {
        Some(v) => str_trim(v),
        None => {
            proof {
                reveal_strlit("");
            }
            assert(""@ =~= Seq::<char>::empty());
            ""
        },
    };
    let dt: &str = match description {
        Some(v) => str_trim(v),
        None => {
            proof {
                reveal_strlit("");
            }
            assert(""@ =~= Seq::<char>::empty());
            ""
        },
    };
    let has_r = rt.unicode_len() > 0;
    let has_d = dt.unicode_len() > 0;
    if !has_r && !has_d {
        Some("TWINT Import".to_owned())
    } else if has_r && has_d {
        let mut s = "TWINT Import: Ref ".to_owned();
        s.append(rt);
        s.append(" | ");
        s.append(dt);
        Some(s)
    } else if has_r {
        let mut s = "TWINT Import: Ref ".to_owned();
        s.append(rt);
        Some(s)
    } else {
        let mut s = "TWINT Import: ".to_owned();
        s.append(dt);
        Some(s)
    }
}

/// The description of an imported payment's fee record: the heading,
/// with the trimmed reference in parentheses when one is given.
pub open spec fn twint_fee_description_spec(r: Option<&str>) -> Seq<char> {
    let rt = trimmed_or_empty(r);
    if rt.len() > 0 {
        "TWINT Gebuehr ("@ + rt + ")"@
    } else {
        "TWINT Gebuehr"@
    }
}

/// Build the description of an imported payment's fee record.
pub fn build_twint_fee_description(reference: Option<&str>) -> (r: String)
    ensures
        r@ == twint_fee_description_spec(reference),
{
    let rt: &str = match reference {
        Some(v) => str_trim(v),
        None => {
            proof {
                reveal_strlit("");
            }
            assert(""@ =~= Seq::<char>::empty());
            ""
        },
    };
    if rt.unicode_len() > 0 {
        let mut s = "TWINT Gebuehr (".to_owned();
        s.append(rt);
        s.append(")");
        s
    } else {
        "TWINT Gebuehr".to_owned()
    }
}

} // verus!
