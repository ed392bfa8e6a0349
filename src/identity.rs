use vstd::arithmetic::div_mod::{lemma_div_denominator, lemma_div_pos_is_pos, lemma_fundamental_div_mod, lemma_mod_bound};
use vstd::arithmetic::power::{lemma_pow0, lemma_pow_positive, pow};
use vstd::prelude::*;

use crate::path::opt_view;

verus! {

/// The lower-case hexadecimal digit for a value below sixteen.
pub open spec fn hex_digit(d: int) -> char {
    hex_lower()[d]
}

/// Digit `k` of the 32 hexadecimal digits of `x`, the most significant first.
pub open spec fn nibble(x: u128, k: int) -> int {
    (x as int / pow(16, (31 - k) as nat)) % 16
}

/// How many hyphens stand before position `i` of the hyphenated form.
pub open spec fn hyphens_before(i: int) -> int {
    if i < 8 {
        0
    } else if i < 13 {
        1
    } else if i < 18 {
        2
    } else if i < 23 {
        3
    } else {
        4
    }
}

/// The hyphenated form of an identity: 32 lower-case hexadecimal digits in
/// groups of 8, 4, 4, 4 and 12, joined by `-`.
pub open spec fn hyphenated(x: u128) -> Seq<char> {
    Seq::new(
        36,
        |i: int|
            if i == 8 || i == 13 || i == 18 || i == 23 {
                '-'
            } else {
                hex_digit(nibble(x, i - hyphens_before(i)))
            },
    )
}

/// The lower-case hexadecimal digits, by value.
pub open spec fn hex_lower() -> Seq<char> {
    seq!['0', '1', '2', '3', '4', '5', '6', '7', '8', '9', 'a', 'b', 'c', 'd', 'e', 'f']
}

/// The upper-case hexadecimal digits, by value.
pub open spec fn hex_upper() -> Seq<char> {
    seq!['0', '1', '2', '3', '4', '5', '6', '7', '8', '9', 'A', 'B', 'C', 'D', 'E', 'F']
}

/// A hexadecimal digit of either case.
pub open spec fn is_hex(c: char) -> bool {
    exists|d: int| 0 <= d < 16 && (hex_lower()[d] == c || hex_upper()[d] == c)
}

/// The value of a hexadecimal digit.
pub open spec fn hex_val(c: char) -> int {
    choose|d: int| 0 <= d < 16 && (hex_lower()[d] == c || hex_upper()[d] == c)
}

/// The number that a text of hexadecimal digits writes, the most significant first.
pub open spec fn hex_number(s: Seq<char>) -> int
    decreases s.len(),
{
    if s.len() == 0 {
        0
    } else {
        hex_number(s.drop_last()) * 16 + hex_val(s.last())
    }
}

/// The simple form: 32 hexadecimal digits.
pub open spec fn simple_value(s: Seq<char>) -> Option<u128> {
    if s.len() == 32 && forall|i: int| 0 <= i < s.len() ==> is_hex(#[trigger] s[i]) {
        Some(hex_number(s) as u128)
    } else {
        None
    }
}

/// The hyphenated form: the digits in groups of 8, 4, 4, 4 and 12, joined by `-`.
pub open spec fn hyphenated_value(s: Seq<char>) -> Option<u128> {
    if s.len() == 36 && s[8] == '-' && s[13] == '-' && s[18] == '-' && s[23] == '-' {
        simple_value(
            s.subrange(0, 8) + s.subrange(9, 13) + s.subrange(14, 18) + s.subrange(19, 23)
                + s.subrange(24, 36),
        )
    } else {
        None
    }
}

/// `urn:uuid:` in any mix of cases.
pub open spec fn urn_prefix(p: Seq<char>) -> bool {
    &&& p.len() == 9
    &&& forall|i: int|
        0 <= i < 9 ==> #[trigger] p[i] == seq!['u', 'r', 'n', ':', 'u', 'u', 'i', 'd', ':'][i]
            || p[i] == seq!['U', 'R', 'N', ':', 'U', 'U', 'I', 'D', ':'][i]
}

/// The identity that a text holds, if it holds one: the simple form, the
/// hyphenated form, the hyphenated form in braces, or the hyphenated form
/// after `urn:uuid:`.
pub open spec fn uuid_parse(s: Seq<char>) -> Option<u128> {
    if s.len() == 32 {
        simple_value(s)
    } else if s.len() == 36 {
        hyphenated_value(s)
    } else if s.len() == 38 {
        if s[0] == '{' && s[37] == '}' {
            hyphenated_value(s.subrange(1, 37))
        } else {
            None
        }
    } else if s.len() == 45 {
        if urn_prefix(s.subrange(0, 9)) {
            hyphenated_value(s.subrange(9, 45))
        } else {
            None
        }
    } else {
        None
    }
}

/// A lower-case digit reads back as its value.
proof fn lemma_hex_val(d: int)
    requires
        0 <= d < 16,
    ensures
        is_hex(hex_digit(d)),
        hex_val(hex_digit(d)) == d,
{
    let c = hex_digit(d);
    assert(0 <= d < 16 && (hex_lower()[d] == c || hex_upper()[d] == c));
    let e = hex_val(c);
    assert(0 <= e < 16 && (hex_lower()[e] == c || hex_upper()[e] == c));
}

/// The first `n` digits of the hexadecimal form of `x` write `x` without its
/// last `32 - n` digits.
proof fn lemma_digits_value(x: u128, n: int)
    requires
        0 <= n <= 32,
    ensures
        hex_number(Seq::new(n as nat, |k: int| hex_digit(nibble(x, k)))) == x as int / pow(
            16,
            (32 - n) as nat,
        ),
    decreases n,
{
    let s = Seq::new(n as nat, |k: int| hex_digit(nibble(x, k)));
    if n == 0 {
        assert(pow(16, 32) == 0x1_0000_0000_0000_0000_0000_0000_0000_0000) by {
            reveal_with_fuel(pow, 33);
        }
        assert(x as int / pow(16, 32) == 0);
    } else {
        let prev = Seq::new((n - 1) as nat, |k: int| hex_digit(nibble(x, k)));
        assert(s.drop_last() =~= prev);
        lemma_digits_value(x, n - 1);
        let p = pow(16, (32 - n) as nat);
        lemma_pow_positive(16, (32 - n) as nat);
        assert(pow(16, (33 - n) as nat) == 16 * p) by {
            reveal(pow);
        }
        let q = x as int / p;
        lemma_div_pos_is_pos(x as int, p);
        lemma_mod_bound(q, 16);
        lemma_hex_val(q % 16);
        assert(nibble(x, n - 1) == q % 16);
        lemma_div_denominator(x as int, p, 16);
        assert(x as int / (16 * p) == q / 16) by {
            assert(p * 16 == 16 * p);
        }
        lemma_fundamental_div_mod(q, 16);
        assert(hex_number(s) == (q / 16) * 16 + q % 16);
    }
}

/// The hyphenated form of an identity reads back as the same identity.
pub proof fn lemma_hyphenated_parses(x: u128)
    ensures
        uuid_parse(hyphenated(x)) == Some(x),
{
    let h = hyphenated(x);
    let d = Seq::new(32, |k: int| hex_digit(nibble(x, k)));
    let u = h.subrange(0, 8) + h.subrange(9, 13) + h.subrange(14, 18) + h.subrange(19, 23)
        + h.subrange(24, 36);
    assert(u =~= d);
    assert forall|i: int| 0 <= i < 32 implies is_hex(#[trigger] d[i]) by {
        lemma_pow_positive(16, (31 - i) as nat);
        lemma_div_pos_is_pos(x as int, pow(16, (31 - i) as nat));
        lemma_mod_bound(x as int / pow(16, (31 - i) as nat), 16);
        lemma_hex_val(nibble(x, i));
    }
    lemma_digits_value(x, 32);
    lemma_pow0(16);
    assert(hyphenated_value(h) == Some(x));
}

/// Relies on `uuid::Uuid::try_parse` (with `Uuid::as_u128`, big-endian): it
/// accepts exactly the four forms of `uuid_parse`, hexadecimal digits of
/// either case. A text that is not ASCII fits none of them.
#[verifier::external_body]
fn parse_uuid(s: &str) -> (r: Option<u128>)
    ensures
        r == uuid_parse(s@),
{
    match uuid::Uuid::try_parse(s) {
        Ok(u) => Some(u.as_u128()),
        Err(_) => None,
    }
}

/// Relies on `uuid::Uuid::from_u128` and the `Display` of `Uuid`, which writes
/// the hyphenated lower-case form.
#[verifier::external_body]
fn format_uuid(x: u128) -> (r: String)
    ensures
        r@ == hyphenated(x),
{
    uuid::Uuid::from_u128(x).to_string()
}

/// Relies on `uuid::Uuid::new_v4` (with `Uuid::as_u128`): a random identity,
/// of which nothing is promised.
#[verifier::external_body]
fn random_uuid() -> (r: u128) {
    uuid::Uuid::new_v4().as_u128()
}

/// The identity of a song: a 128-bit value stored in the file's tags.
#[derive(Debug, Clone, Copy, PartialEq, Eq, Hash, Structural)]
pub struct SongUuid(pub u128);

impl SongUuid {
    /// The hyphenated text of this identity.
    pub fn to_string(&self) -> (r: String)
        ensures
            r@ == hyphenated(self.0),
            uuid_parse(r@) == Some(self.0),
    {
        proof {
            lemma_hyphenated_parses(self.0);
        }
        format_uuid(self.0)
    }
}

/// Why no identity could be had for a file.
#[derive(Debug, Clone, Copy, PartialEq, Eq, Structural)]
pub enum IdentityError {
    /// The file holds no identity and none may be assigned.
    MissingIdentity,
    /// The identity field holds a text that is no identity.
    InvalidIdentity,
}

/// The outcome of resolving a file's identity.
#[derive(Debug, Clone)]
pub enum Resolution {
    /// The file already holds this identity; nothing is to be written.
    Existing(SongUuid),
    /// A new identity, and the text to write into the file's identity field.
    Assigned(SongUuid, String),
}

impl Resolution {
    pub open spec fn identity(self) -> SongUuid {
        match self {
            Resolution::Existing(id) => id,
            Resolution::Assigned(id, _) => id,
        }
    }

    /// Whether the file has to be written.
    pub open spec fn writes(self) -> bool {
        self is Assigned
    }
}

/// What the uuid crate reads from an optional field.
pub open spec fn parsed_field(field: Option<Seq<char>>) -> Option<Option<u128>> {
    match field {
        Some(t) => Some(uuid_parse(t)),
        None => None,
    }
}

/// The decision on a file's identity from what its field parsed to:
/// `Ok(Some(id))` keeps the stored identity, `Ok(None)` asks for a new one.
pub open spec fn decision(parsed: Option<Option<u128>>, assign: bool) -> Result<
    Option<SongUuid>,
    IdentityError,
> {
    match parsed {
        Some(Some(x)) => Ok(Some(SongUuid(x))),
        Some(None) => Err(IdentityError::InvalidIdentity),
        None => if assign {
            Ok(None)
        } else {
            Err(IdentityError::MissingIdentity)
        },
    }
}

/// Decides on a file's identity from what its field parsed to: `None` when
/// the field is absent, `Some(None)` when it holds no identity.
pub fn decide_identity(parsed: Option<Option<u128>>, assign: bool) -> (r: Result<
    Option<SongUuid>,
    IdentityError,
>)
    ensures
        r == decision(parsed, assign),
{
    match parsed {
        Some(Some(x)) => Ok(Some(SongUuid(x))),
        Some(None) => Err(IdentityError::InvalidIdentity),
        None => if assign {
            Ok(None)
        } else {
            Err(IdentityError::MissingIdentity)
        },
    }
}

/// Reads the identity stored in a file's identity field, without assigning
/// one: `Ok(None)` when the field is absent.
pub fn read_identity(field: &Option<String>) -> (r: Result<Option<SongUuid>, IdentityError>)
    ensures
        r == decision(parsed_field(opt_view(*field)), true),
{
    let parsed = match field {
        Some(text) => Some(parse_uuid(text.as_str())),
        None => None,
    };
    decide_identity(parsed, true)
}

/// What resolving the identity field `field` may return.
pub open spec fn resolved(
    field: Option<Seq<char>>,
    assign: bool,
    r: Result<Resolution, IdentityError>,
) -> bool {
    match decision(parsed_field(field), assign) {
        Ok(Some(id)) => r == Ok::<Resolution, IdentityError>(Resolution::Existing(id)),
        Ok(None) => match r {
            Ok(Resolution::Assigned(id, text)) => text@ == hyphenated(id.0) && uuid_parse(text@)
                == Some(id.0),
            _ => false,
        },
        Err(e) => r == Err::<Resolution, IdentityError>(e),
    }
}

/// Resolves the identity held in a file's identity field. A stored identity
/// is kept; an absent one is drawn at random when `assign` permits it, with
/// the text to store; a field that holds no identity is an error.
pub fn resolve_identity(field: &Option<String>, assign: bool) -> (r: Result<
    Resolution,
    IdentityError,
>)
    ensures
        resolved(opt_view(*field), assign, r),
{
    let parsed = match field {
        Some(text) => Some(parse_uuid(text.as_str())),
        None => None,
    };
    match decide_identity(parsed, assign) {
        Ok(Some(id)) => Ok(Resolution::Existing(id)),
        Ok(None) => {
            let id = SongUuid(random_uuid());
            let text = id.to_string();
            proof {
                assert(uuid_parse(text@) == Some(id.0));
            }
            Ok(Resolution::Assigned(id, text))
        },
        Err(e) => Err(e),
    }
}

/// The identity field as a resolution leaves it.
pub open spec fn field_after(field: Option<Seq<char>>, r: Resolution) -> Option<Seq<char>> {
    match r {
        Resolution::Existing(_) => field,
        Resolution::Assigned(_, text) => Some(text@),
    }
}

/// Resolving twice is the same as resolving once: on the field as a first
/// resolution left it, a second one finds the same identity and writes
/// nothing, whether or not it may assign.
pub proof fn lemma_resolution_idempotent(
    field: Option<Seq<char>>,
    assign: bool,
    first: Resolution,
    assign_again: bool,
    second: Result<Resolution, IdentityError>,
)
    requires
        resolved(field, assign, Ok(first)),
        resolved(field_after(field, first), assign_again, second),
    ensures
        second == Ok::<Resolution, IdentityError>(Resolution::Existing(first.identity())),
        decision(parsed_field(field_after(field, first)), assign_again) == Ok::<
            Option<SongUuid>,
            IdentityError,
        >(Some(first.identity())),
{
}

} // verus!
