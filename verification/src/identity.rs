use vstd::prelude::*;
use vstd::string::*;

verus! {

/// A lower-case hexadecimal digit.
pub open spec fn is_lower_hex(c: char) -> bool {
    ('0' <= c && c <= '9') || ('a' <= c && c <= 'f')
}

/// The hyphenated text of a random (version 4) UUID: 36 characters, hyphens
/// after the 8th, 12th, 16th and 20th digit, lower-case hexadecimal digits
/// elsewhere, the version digit `4` and a variant digit of `8` to `b`.
pub open spec fn is_random_uuid_text(s: Seq<char>) -> bool {
    &&& s.len() == 36
    &&& forall|i: int|
        0 <= i < 36 ==> if i == 8 || i == 13 || i == 18 || i == 23 {
            #[trigger] s[i] == '-'
        } else {
            is_lower_hex(s[i])
        }
    &&& s[14] == '4'
    &&& (s[19] == '8' || s[19] == '9' || s[19] == 'a' || s[19] == 'b')
}

/// The text begins with the hyphenated text of a random UUID.
pub open spec fn starts_with_uuid(s: Seq<char>) -> bool {
    s.len() >= 36 && is_random_uuid_text(s.subrange(0, 36))
}

/// Draws a random UUID with `uuid::Uuid::new_v4` and renders it with the
/// crate's `Display` impl (`to_string`).
///
/// Trusted: the result has the hyphenated lower-case shape of a version 4
/// UUID. Nothing is claimed about which UUID is drawn; two calls may or may
/// not differ. The call fails only where the operating system cannot supply
/// random bytes.
#[verifier::external_body]
pub(crate) fn random_uuid_text() -> (id: String)
    ensures
        is_random_uuid_text(id@),
{
    uuid::Uuid::new_v4().to_string()
}

/// Extends `id` with hyphens until it is longer than `longest` characters.
pub fn pad_beyond(id: String, longest: usize) -> (padded: String)
    ensures
        padded@.len() > longest,
        padded@.len() >= id@.len(),
        padded@.subrange(0, id@.len() as int) == id@,
        id@.len() > longest ==> padded@ == id@,
        forall|i: int| id@.len() <= i < padded@.len() ==> padded@[i] == '-',
        id@.len() <= longest ==> padded@.len() == longest + 1,
{
    let mut padded = id;
    let ghost start = padded@;
    proof {
        assert(padded@.subrange(0, start.len() as int) =~= start);
    }
    while padded.as_str().unicode_len() <= longest
        invariant
            padded@.len() >= start.len(),
            padded@.subrange(0, start.len() as int) == start,
            forall|i: int| start.len() <= i < padded@.len() ==> padded@[i] == '-',
            start.len() <= longest ==> padded@.len() <= longest + 1,
            start.len() > longest ==> padded@ == start,
        decreases longest + 1 - padded@.len(),
    {
        let ghost before = padded@;
        proof {
            reveal_strlit("-");
        }
        padded.append("-");
        proof {
            assert("-"@ =~= seq!['-']);
            assert(padded@ =~= before.push('-'));
            assert(padded@.subrange(0, start.len() as int) =~= before.subrange(0, start.len() as int));
        }
    }
    padded
}

} // verus!
