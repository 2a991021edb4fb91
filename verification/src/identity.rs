//! The participant's persistent key: what the key file's text means when it is read back, and
//! the text a newly created key is written as. A key file that does not hold a key is reported,
//! never overwritten.
use vstd::prelude::*;

use crate::text::{concat, push_char, trim, trimmed};

verus! {

/// The name of the key file, beside the settings in the platform config directory.
pub const IDENTITY_FILE: &'static str = "identity.key";

/// A secret key's 32 bytes.
pub type KeyBytes = [u8; 32];

/// What `SecretKey::from_str` makes of `text`: the 32 bytes of the key it decodes, as
/// `SecretKey::to_bytes` gives them back, or the text of its parse error.
pub uninterp spec fn secret_key_decoding(text: Seq<char>) -> Result<Seq<u8>, Seq<char>>;

/// The lowercase hexadecimal digit of `d`, below 16.
pub open spec fn hex_digit(d: u8) -> char {
    if d < 10 {
        (48 + d) as char
    } else {
        (87 + d) as char
    }
}

/// `bytes` in lowercase hexadecimal, two digits a byte, high half first.
pub open spec fn hex_lower(bytes: Seq<u8>) -> Seq<char>
    decreases bytes.len(),
{
    if bytes.len() == 0 {
        Seq::empty()
    } else {
        hex_lower(bytes.drop_last()) + seq![hex_digit(bytes.last() / 16), hex_digit(bytes.last() % 16)]
    }
}

/// Whether `text` is the lowercase hexadecimal of some 32 bytes.
pub open spec fn is_hex_key_text(text: Seq<char>) -> bool {
    exists|b: Seq<u8>| b.len() == 32 && text == #[trigger] hex_lower(b)
}

/// `SecretKey::from_str`, with the key handed back as its bytes (`SecretKey::to_bytes`): claimed
/// to give the named decoding of the text, and, for the lowercase hexadecimal of any 32 bytes,
/// which it decodes before anything else, exactly those bytes. The other accepted forms
/// (base32) and the error's wording are not restated.
#[verifier::external_body]
fn parse_secret_key(text: &str) -> (r: Result<KeyBytes, String>)
    ensures
        r matches Ok(k) ==> secret_key_decoding(text@) matches Ok(d) && d == k@,
        r matches Err(e) ==> secret_key_decoding(text@) matches Err(d) && d == e@,
        is_hex_key_text(text@) ==> r is Ok,
        r matches Ok(k) ==> (is_hex_key_text(text@) ==> text@ == hex_lower(k@)),
{
    match text.parse::<iroh_base::SecretKey>() {
        Ok(key) => Ok(key.to_bytes()),
        Err(e) => Err(e.to_string()),
    }
}

/// What a key file holding `text` is refused with: its path, then the parser's reason.
pub open spec fn invalid_key_text(path: Seq<char>, reason: Seq<char>) -> Seq<char> {
    path + " is not a valid key: "@ + reason
}

/// The key a key file at `path` holds, as its 32 bytes, read from its text with surrounding
/// white space dropped. The text written for a key reads back as that same key.
pub fn identity_from_text(path: &str, text: &str) -> (r: Result<[u8; 32], String>)
    ensures
        match r {
            Ok(k) => secret_key_decoding(trimmed(text@)) == Ok::<Seq<u8>, Seq<char>>(k@),
            Err(m) => secret_key_decoding(trimmed(text@)) matches Err(reason) && m@ == invalid_key_text(
                path@,
                reason,
            ),
        },
        forall|b: Seq<u8>| b.len() == 32 && text@ == hex_lower(b) ==> (r matches Ok(k) && k@ == b),
{
    proof {
        assert forall|b: Seq<u8>| b.len() == 32 && text@ == hex_lower(b) implies trimmed(text@) == hex_lower(b) by {
            lemma_hex_is_trimmed(b);
        }
    }
    let t = trim(text);
    match parse_secret_key(t.as_str()) {
        Ok(key) => {
            proof {
                assert forall|b: Seq<u8>| b.len() == 32 && text@ == hex_lower(b) implies key@ == b by {
                    assert(t@ == hex_lower(b));
                    lemma_hex_injective(key@, b);
                }
            }
            Ok(key)
        },
        Err(reason) => {
            let head = concat(path, " is not a valid key: ");
            Err(concat(head.as_str(), reason.as_str()))
        },
    }
}

/// What loading the identity at `path` does with the key file's content: a file that holds a
/// key gives that key's bytes; a file that holds anything else is an error and is left as it is;
/// no file at all (`None`) means a new key is to be created.
pub fn identity_from_file(path: &str, contents: Option<&str>) -> (r: Result<Option<[u8; 32]>, String>)
    ensures
        contents is None ==> r == Ok::<Option<[u8; 32]>, String>(None),
        contents matches Some(text) ==> match r {
            Ok(k) => k matches Some(key) && secret_key_decoding(trimmed(text@)) == Ok::<Seq<u8>, Seq<char>>(key@),
            Err(m) => secret_key_decoding(trimmed(text@)) matches Err(reason) && m@ == invalid_key_text(
                path@,
                reason,
            ),
        },
        contents matches Some(text) ==> forall|b: Seq<u8>| b.len() == 32 && text@ == hex_lower(b) ==> (r matches Ok(
            Some(k),
        ) && k@ == b),
{
    match contents {
        None => Ok(None),
        Some(text) => match identity_from_text(path, text) {
            Ok(key) => Ok(Some(key)),
            Err(m) => Err(m),
        },
    }
}

/// The lowercase hexadecimal digit of `d`.
fn hex_char(d: u8) -> (c: char)
    requires
        d < 16,
    ensures
        c == hex_digit(d),
{
    if d == 0 { '0' }
    else if d == 1 { '1' }
    else if d == 2 { '2' }
    else if d == 3 { '3' }
    else if d == 4 { '4' }
    else if d == 5 { '5' }
    else if d == 6 { '6' }
    else if d == 7 { '7' }
    else if d == 8 { '8' }
    else if d == 9 { '9' }
    else if d == 10 { 'a' }
    else if d == 11 { 'b' }
    else if d == 12 { 'c' }
    else if d == 13 { 'd' }
    else if d == 14 { 'e' }
    else { 'f' }
}

/// The text a newly created key is written to its file as: its 32 bytes in lowercase hex.
pub fn key_file_text(bytes: &[u8; 32]) -> (t: String)
    ensures
        t@ == hex_lower(bytes@),
{
    let mut t = String::new();
    let mut i: usize = 0;
    assert(bytes@.take(0) =~= Seq::<u8>::empty());
    while i < 32
        invariant
            i <= 32,
            bytes@.len() == 32,
            t@ == hex_lower(bytes@.take(i as int)),
        decreases 32 - i,
    {
        let b = bytes[i];
        push_char(&mut t, hex_char(b / 16));
        push_char(&mut t, hex_char(b % 16));
        proof {
            let next = bytes@.take(i + 1);
            assert(next.drop_last() =~= bytes@.take(i as int));
            assert(next.last() == b);
        }
        i = i + 1;
    }
    assert(bytes@.take(32) =~= bytes@);
    t
}

/// Two bytes' hexadecimal digits tell the bytes apart.
proof fn lemma_hex_digit_injective(x: u8, y: u8)
    requires
        x < 16,
        y < 16,
        hex_digit(x) == hex_digit(y),
    ensures
        x == y,
{
}

/// Byte strings of one length with the same hexadecimal are the same.
proof fn lemma_hex_injective(a: Seq<u8>, b: Seq<u8>)
    requires
        a.len() == b.len(),
        hex_lower(a) == hex_lower(b),
    ensures
        a == b,
    decreases a.len(),
{
    if a.len() > 0 {
        lemma_hex_digits(a.drop_last());
        lemma_hex_digits(b.drop_last());
        let ha = hex_lower(a);
        let n = ha.len();
        assert(ha[n - 2] == hex_digit(a.last() / 16));
        assert(hex_lower(b)[n - 2] == hex_digit(b.last() / 16));
        assert(ha[n - 1] == hex_digit(a.last() % 16));
        assert(hex_lower(b)[n - 1] == hex_digit(b.last() % 16));
        lemma_hex_digit_injective(a.last() / 16, b.last() / 16);
        lemma_hex_digit_injective(a.last() % 16, b.last() % 16);
        assert(hex_lower(a.drop_last()) =~= ha.subrange(0, n - 2));
        assert(hex_lower(b.drop_last()) =~= hex_lower(b).subrange(0, n - 2));
        lemma_hex_injective(a.drop_last(), b.drop_last());
        assert(a.last() == b.last());
        assert(a =~= a.drop_last().push(a.last()));
        assert(b =~= b.drop_last().push(b.last()));
    }
}

/// Hexadecimal holds no white space, so the text written for a key is the text read back.
proof fn lemma_hex_is_trimmed(bytes: Seq<u8>)
    ensures
        trimmed(hex_lower(bytes)) == hex_lower(bytes),
{
    lemma_hex_digits(bytes);
    let h = hex_lower(bytes);
    if h.len() > 0 {
        assert(!crate::text::white_space(h[0]));
        assert(!crate::text::white_space(h.last()));
    }
    assert(crate::text::trim_start(h) == h);
    assert(crate::text::trim_end(h) == h);
}

/// Every character of a hexadecimal text is a digit or a letter from `a` to `f`.
proof fn lemma_hex_digits(bytes: Seq<u8>)
    ensures
        forall|i: int| 0 <= i < hex_lower(bytes).len() ==> ('0' <= #[trigger] hex_lower(bytes)[i] <= '9' || 'a'
            <= hex_lower(bytes)[i] <= 'f'),
        hex_lower(bytes).len() == 2 * bytes.len(),
    decreases bytes.len(),
{
    if bytes.len() > 0 {
        lemma_hex_digits(bytes.drop_last());
        let h = hex_lower(bytes);
        let p = hex_lower(bytes.drop_last());
        assert forall|i: int| 0 <= i < h.len() implies ('0' <= #[trigger] h[i] <= '9' || 'a' <= h[i] <= 'f') by {
            if i < p.len() {
                assert(h[i] == p[i]);
            }
        }
    }
}

} // verus!
