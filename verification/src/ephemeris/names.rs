//! Body names of the ephemeris providers: the supported canonical names and
//! the ASCII case-insensitive lookup that maps a user-given name to a body.
use vstd::prelude::*;

use crate::error::{is_invalid_input, PykepError, Result};
use vstd::string::StringSliceAdditionalSpecFns;
use vstd::utf8::is_ascii_chars;

verus! {

/// The ASCII lower-case form of one character; every other character is kept.
pub open spec fn ascii_lowercase_char(c: char) -> char {
    if 'A' <= c && c <= 'Z' {
        ((c as u32) + 32) as char
    } else {
        c
    }
}

/// The ASCII lower-case form of a text, character by character.
pub open spec fn ascii_lowercase(text: Seq<char>) -> Seq<char> {
    text.map_values(|c: char| ascii_lowercase_char(c))
}

/// Canonical names of the bodies of the JPL low-precision ephemerides, in order.
pub open spec fn jpl_lp_names() -> Seq<Seq<char>> {
    seq![
        "mercury"@,
        "venus"@,
        "earth"@,
        "mars"@,
        "jupiter"@,
        "saturn"@,
        "uranus"@,
        "neptune"@,
    ]
}

/// Canonical names of the bodies of the VSOP2013 theory, in the order of
/// their planet numbers `1..=9`.
pub open spec fn vsop2013_names() -> Seq<Seq<char>> {
    seq![
        "mercury"@,
        "venus"@,
        "earth_moon"@,
        "mars"@,
        "jupiter"@,
        "saturn"@,
        "uranus"@,
        "neptune"@,
        "pluto"@,
    ]
}

/// Whether `name` names no body of `names`, ignoring ASCII case.
pub open spec fn names_no_body(name: Seq<char>, names: Seq<Seq<char>>) -> bool {
    forall|i: int| 0 <= i < names.len() ==> ascii_lowercase(name) != #[trigger] names[i]
}

/// Whether `name` equals `canonical` once its ASCII letters are lower-cased.
fn matches_ignoring_ascii_case(name: &str, canonical: &str) -> (equal: bool)
    requires
        vstd::string::is_ascii(canonical),
    ensures
        equal == (ascii_lowercase(name@) == canonical@),
{
    broadcast use vstd::string::is_ascii_spec_bytes;

    let ghost lowered = ascii_lowercase(name@);
    if !name.is_ascii() {
        proof {
            let i = choose|i: int| 0 <= i < name@.len() && !('\0' <= #[trigger] name@[i] <= '\u{7f}');
            assert(lowered[i] == name@[i]);
            if lowered == canonical@ {
                assert(canonical@[i] == lowered[i]);
            }
        }
        return false;
    }
    let name_bytes = name.as_bytes();
    let canonical_bytes = canonical.as_bytes();
    if name_bytes.len() != canonical_bytes.len() {
        assert(lowered.len() != canonical@.len());
        return false;
    }
    let mut index: usize = 0;
    while index < name_bytes.len()
        invariant
            vstd::string::is_ascii(name),
            vstd::string::is_ascii(canonical),
            name_bytes@ == name.spec_bytes(),
            canonical_bytes@ == canonical.spec_bytes(),
            name_bytes@.len() == canonical_bytes@.len(),
            name_bytes@.len() == name@.len(),
            canonical_bytes@.len() == canonical@.len(),
            lowered == ascii_lowercase(name@),
            0 <= index <= name_bytes@.len(),
            forall|k: int| 0 <= k < index ==> #[trigger] lowered[k] == canonical@[k],
        decreases name_bytes@.len() - index,
    {
        let byte = name_bytes[index];
        let folded: u8 = if 65 <= byte && byte <= 90 { byte + 32 } else { byte };
        let ghost c = name@[index as int];
        let ghost d = canonical@[index as int];
        assert(byte == c as u8);
        assert(canonical_bytes@[index as int] == d as u8);
        assert(lowered[index as int] == ascii_lowercase_char(c));
        if folded != canonical_bytes[index] {
            assert(lowered[index as int] != d);
            return false;
        }
        assert(lowered[index as int] == d);
        index = index + 1;
    }
    assert(lowered =~= canonical@);
    true
}

/// The canonical names of the JPL low-precision bodies.
pub fn jpl_lp_supported_bodies() -> (names: [&'static str; 8])
    ensures
        names@.map_values(|s: &'static str| s@) == jpl_lp_names(),
{
    let names = ["mercury", "venus", "earth", "mars", "jupiter", "saturn", "uranus", "neptune"];
    assert(names@.map_values(|s: &'static str| s@) =~= jpl_lp_names());
    names
}

/// The canonical names of the VSOP2013 bodies, in the order of their planet
/// numbers.
pub fn vsop2013_supported_bodies() -> (names: [&'static str; 9])
    ensures
        names@.map_values(|s: &'static str| s@) == vsop2013_names(),
{
    let names = [
        "mercury",
        "venus",
        "earth_moon",
        "mars",
        "jupiter",
        "saturn",
        "uranus",
        "neptune",
        "pluto",
    ];
    assert(names@.map_values(|s: &'static str| s@) =~= vsop2013_names());
    names
}

/// Every canonical name is ASCII.
proof fn lemma_names_are_ascii()
    ensures
        forall|i: int| 0 <= i < jpl_lp_names().len() ==> is_ascii_chars(#[trigger] jpl_lp_names()[i]),
        forall|i: int| 0 <= i < vsop2013_names().len() ==> is_ascii_chars(#[trigger] vsop2013_names()[i]),
{
    reveal_strlit("mercury");
    reveal_strlit("venus");
    reveal_strlit("earth");
    reveal_strlit("earth_moon");
    reveal_strlit("mars");
    reveal_strlit("jupiter");
    reveal_strlit("saturn");
    reveal_strlit("uranus");
    reveal_strlit("neptune");
    reveal_strlit("pluto");
}

/// Position of `name` among `names`, ignoring ASCII case; `None` where it
/// names none of them.
fn find_name(name: &str, names: &[&'static str]) -> (found: Option<usize>)
    requires
        forall|i: int| 0 <= i < names@.len() ==> is_ascii_chars(#[trigger] names@[i]@),
    ensures
        match found {
            Some(i) => i < names@.len() && ascii_lowercase(name@) == names@[i as int]@,
            None => forall|i: int| 0 <= i < names@.len() ==> ascii_lowercase(name@) != #[trigger] names@[i]@,
        },
{
    let mut index: usize = 0;
    while index < names.len()
        invariant
            forall|i: int| 0 <= i < names@.len() ==> is_ascii_chars(#[trigger] names@[i]@),
            0 <= index <= names@.len(),
            forall|i: int| 0 <= i < index ==> ascii_lowercase(name@) != #[trigger] names@[i]@,
        decreases names@.len() - index,
    {
        if matches_ignoring_ascii_case(name, names[index]) {
            return Some(index);
        }
        index = index + 1;
    }
    None
}

/// Index of a JPL low-precision body in [`jpl_lp_supported_bodies`]; the name
/// is matched ASCII case-insensitively.
///
/// # Errors
///
/// Returns an error for an unsupported name.
pub fn jpl_lp_body_index(name: &str) -> (index: Result<usize>)
    ensures
        match index {
            Ok(i) => i < jpl_lp_names().len() && ascii_lowercase(name@) == jpl_lp_names()[i as int],
            Err(error) => names_no_body(name@, jpl_lp_names()) && is_invalid_input(
                error,
                "name"@,
                "supported names are mercury, venus, earth, mars, jupiter, saturn, uranus, and neptune"@,
            ),
        },
{
    let names = jpl_lp_supported_bodies();
    proof {
        lemma_names_are_ascii();
        assert(forall|i: int| 0 <= i < names@.len() ==> #[trigger] names@[i]@ == jpl_lp_names()[i]);
    }
    match find_name(name, names.as_slice()) {
        Some(i) => Ok(i),
        None => Err(PykepError::InvalidInput {
            parameter: "name",
            reason: "supported names are mercury, venus, earth, mars, jupiter, saturn, uranus, and neptune".to_owned(),
        }),
    }
}

/// Planet number `1..=9` of a VSOP2013 body; the name is matched ASCII
/// case-insensitively.
///
/// # Errors
///
/// Returns an error for an unsupported name.
pub fn vsop2013_planet_index(name: &str) -> (planet: Result<u8>)
    ensures
        match planet {
            Ok(p) => 1 <= p <= vsop2013_names().len() && ascii_lowercase(name@) == vsop2013_names()[p - 1],
            Err(error) => names_no_body(name@, vsop2013_names()) && is_invalid_input(
                error,
                "name"@,
                "supported names are mercury, venus, earth_moon, mars, jupiter, saturn, uranus, neptune, and pluto"@,
            ),
        },
{
    let names = vsop2013_supported_bodies();
    proof {
        lemma_names_are_ascii();
        assert(forall|i: int| 0 <= i < names@.len() ==> #[trigger] names@[i]@ == vsop2013_names()[i]);
    }
    match find_name(name, names.as_slice()) {
        Some(i) => Ok((i + 1) as u8),
        None => Err(PykepError::InvalidInput {
            parameter: "name",
            reason: "supported names are mercury, venus, earth_moon, mars, jupiter, saturn, uranus, neptune, and pluto".to_owned(),
        }),
    }
}

/// The canonical names are already lower-case and pairwise distinct.
proof fn lemma_names_are_canonical()
    ensures
        forall|i: int| 0 <= i < jpl_lp_names().len() ==> ascii_lowercase(#[trigger] jpl_lp_names()[i]) == jpl_lp_names()[i],
        forall|i: int, j: int| 0 <= i < j < jpl_lp_names().len() ==> #[trigger] jpl_lp_names()[i] != #[trigger] jpl_lp_names()[j],
        forall|i: int| 0 <= i < vsop2013_names().len() ==> ascii_lowercase(#[trigger] vsop2013_names()[i]) == vsop2013_names()[i],
        forall|i: int, j: int| 0 <= i < j < vsop2013_names().len() ==> #[trigger] vsop2013_names()[i] != #[trigger] vsop2013_names()[j],
{
    reveal_strlit("mercury");
    reveal_strlit("venus");
    reveal_strlit("earth");
    reveal_strlit("earth_moon");
    reveal_strlit("mars");
    reveal_strlit("jupiter");
    reveal_strlit("saturn");
    reveal_strlit("uranus");
    reveal_strlit("neptune");
    reveal_strlit("pluto");
    assert forall|i: int| 0 <= i < vsop2013_names().len() implies ascii_lowercase(#[trigger] vsop2013_names()[i]) == vsop2013_names()[i] by {
        assert(ascii_lowercase(vsop2013_names()[i]) =~= vsop2013_names()[i]);
    }
    assert forall|i: int| 0 <= i < jpl_lp_names().len() implies ascii_lowercase(#[trigger] jpl_lp_names()[i]) == jpl_lp_names()[i] by {
        assert(ascii_lowercase(jpl_lp_names()[i]) =~= jpl_lp_names()[i]);
    }
    assert forall|i: int, j: int| 0 <= i < j < jpl_lp_names().len() implies #[trigger] jpl_lp_names()[i] != #[trigger] jpl_lp_names()[j] by {
        let (a, b) = (jpl_lp_names()[i], jpl_lp_names()[j]);
        assert(a.len() != b.len() || a[0] != b[0]);
    }
    assert forall|i: int, j: int| 0 <= i < j < vsop2013_names().len() implies #[trigger] vsop2013_names()[i] != #[trigger] vsop2013_names()[j] by {
        let (a, b) = (vsop2013_names()[i], vsop2013_names()[j]);
        assert(a.len() != b.len() || a[0] != b[0]);
    }
}

/// Looking up the canonical name at position `i` of the JPL low-precision
/// bodies gives back `i`, and no other position: a name that
/// [`jpl_lp_body_index`] matches at some position equals the canonical name
/// there.
pub proof fn law_jpl_lp_name_round_trip(i: int)
    requires
        0 <= i < jpl_lp_names().len(),
    ensures
        forall|j: int| 0 <= j < jpl_lp_names().len() ==> (ascii_lowercase(jpl_lp_names()[i])
            == #[trigger] jpl_lp_names()[j] <==> j == i),
{
    lemma_names_are_canonical();
}

/// Looking up the canonical name of VSOP2013 planet `p` gives back `p`, and
/// no other planet number.
pub proof fn law_vsop2013_name_round_trip(p: int)
    requires
        1 <= p <= vsop2013_names().len(),
    ensures
        forall|q: int| 1 <= q <= vsop2013_names().len() ==> (ascii_lowercase(vsop2013_names()[p - 1])
            == #[trigger] vsop2013_names()[q - 1] <==> q == p),
{
    lemma_names_are_canonical();
}

/// The planet numbers of VSOP2013: a name that the lookup matches to planet
/// `planet` is, ignoring ASCII case, `mercury` for 1, `venus` for 2,
/// `earth_moon` for 3, `mars` for 4, `jupiter` for 5, `saturn` for 6, `uranus`
/// for 7, `neptune` for 8 and `pluto` for 9; a name that matches none of the
/// planets is none of these.
pub proof fn law_vsop2013_planet_numbers(name: Seq<char>, planet: int)
    ensures
        1 <= planet <= 9 && ascii_lowercase(name) == vsop2013_names()[planet - 1] ==> {
            &&& (ascii_lowercase(name) == "mercury"@ <==> planet == 1)
            &&& (ascii_lowercase(name) == "venus"@ <==> planet == 2)
            &&& (ascii_lowercase(name) == "earth_moon"@ <==> planet == 3)
            &&& (ascii_lowercase(name) == "mars"@ <==> planet == 4)
            &&& (ascii_lowercase(name) == "jupiter"@ <==> planet == 5)
            &&& (ascii_lowercase(name) == "saturn"@ <==> planet == 6)
            &&& (ascii_lowercase(name) == "uranus"@ <==> planet == 7)
            &&& (ascii_lowercase(name) == "neptune"@ <==> planet == 8)
            &&& (ascii_lowercase(name) == "pluto"@ <==> planet == 9)
        },
        names_no_body(name, vsop2013_names()) ==> {
            &&& ascii_lowercase(name) != "mercury"@
            &&& ascii_lowercase(name) != "venus"@
            &&& ascii_lowercase(name) != "earth_moon"@
            &&& ascii_lowercase(name) != "mars"@
            &&& ascii_lowercase(name) != "jupiter"@
            &&& ascii_lowercase(name) != "saturn"@
            &&& ascii_lowercase(name) != "uranus"@
            &&& ascii_lowercase(name) != "neptune"@
            &&& ascii_lowercase(name) != "pluto"@
        },
{
    lemma_names_are_canonical();
    if names_no_body(name, vsop2013_names()) {
        assert(ascii_lowercase(name) != vsop2013_names()[0]);
        assert(ascii_lowercase(name) != vsop2013_names()[1]);
        assert(ascii_lowercase(name) != vsop2013_names()[2]);
        assert(ascii_lowercase(name) != vsop2013_names()[3]);
        assert(ascii_lowercase(name) != vsop2013_names()[4]);
        assert(ascii_lowercase(name) != vsop2013_names()[5]);
        assert(ascii_lowercase(name) != vsop2013_names()[6]);
        assert(ascii_lowercase(name) != vsop2013_names()[7]);
        assert(ascii_lowercase(name) != vsop2013_names()[8]);
    }
}

/// The bodies of the JPL low-precision ephemerides: a name that the lookup
/// matches to index `index` is, ignoring ASCII case, `mercury` for 0, `venus`
/// for 1, `earth` for 2, `mars` for 3, `jupiter` for 4, `saturn` for 5,
/// `uranus` for 6 and `neptune` for 7; a name that matches none of the bodies
/// is none of these.
pub proof fn law_jpl_lp_body_indices(name: Seq<char>, index: int)
    ensures
        0 <= index < 8 && ascii_lowercase(name) == jpl_lp_names()[index] ==> {
            &&& (ascii_lowercase(name) == "mercury"@ <==> index == 0)
            &&& (ascii_lowercase(name) == "venus"@ <==> index == 1)
            &&& (ascii_lowercase(name) == "earth"@ <==> index == 2)
            &&& (ascii_lowercase(name) == "mars"@ <==> index == 3)
            &&& (ascii_lowercase(name) == "jupiter"@ <==> index == 4)
            &&& (ascii_lowercase(name) == "saturn"@ <==> index == 5)
            &&& (ascii_lowercase(name) == "uranus"@ <==> index == 6)
            &&& (ascii_lowercase(name) == "neptune"@ <==> index == 7)
        },
        names_no_body(name, jpl_lp_names()) ==> {
            &&& ascii_lowercase(name) != "mercury"@
            &&& ascii_lowercase(name) != "venus"@
            &&& ascii_lowercase(name) != "earth"@
            &&& ascii_lowercase(name) != "mars"@
            &&& ascii_lowercase(name) != "jupiter"@
            &&& ascii_lowercase(name) != "saturn"@
            &&& ascii_lowercase(name) != "uranus"@
            &&& ascii_lowercase(name) != "neptune"@
        },
{
    lemma_names_are_canonical();
    if names_no_body(name, jpl_lp_names()) {
        assert(ascii_lowercase(name) != jpl_lp_names()[0]);
        assert(ascii_lowercase(name) != jpl_lp_names()[1]);
        assert(ascii_lowercase(name) != jpl_lp_names()[2]);
        assert(ascii_lowercase(name) != jpl_lp_names()[3]);
        assert(ascii_lowercase(name) != jpl_lp_names()[4]);
        assert(ascii_lowercase(name) != jpl_lp_names()[5]);
        assert(ascii_lowercase(name) != jpl_lp_names()[6]);
        assert(ascii_lowercase(name) != jpl_lp_names()[7]);
    }
}

} // verus!
