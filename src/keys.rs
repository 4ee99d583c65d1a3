use vstd::prelude::*;

verus! {

/// Length of the access key that an enrolled client presents when it connects.
pub const KEY_LENGTH: usize = 48;

/// Length of the one-time authorization code that enrolls a client.
pub const AUTHORIZATION_KEY_LENGTH: usize = 8;

/// Characters a generated key is made of: ASCII letters and digits.
pub open spec fn is_key_char(c: char) -> bool {
    ('A' <= c && c <= 'Z') || ('a' <= c && c <= 'z') || ('0' <= c && c <= '9')
}

/// Relies on rand's `Alphanumeric` distribution sampled from the thread-local generator:
/// each draw is one byte of `A-Z`, `a-z`, `0-9`, handed back as a one-character string.
#[verifier::external_body]
fn random_key_char() -> (r: String)
    ensures
        r@.len() == 1,
        is_key_char(r@[0]),
{
    let b: u8 = rand::Rng::sample(&mut rand::thread_rng(), rand::distributions::Alphanumeric);
    (b as char).to_string()
}

/// A fresh random key of `length` letters and digits.
pub fn create_api_key(length: usize) -> (r: String)
    ensures
        r@.len() == length,
        forall|i: int| 0 <= i < length ==> is_key_char(#[trigger] r@[i]),
{
    let mut key = String::new();
    let mut i: usize = 0;
    while i < length
        invariant
            i <= length,
            key@.len() == i,
            forall|j: int| 0 <= j < i ==> is_key_char(#[trigger] key@[j]),
        decreases length - i,
    {
        let c = random_key_char();
        let ghost before = key@;
        key.append(c.as_str());
        proof {
            assert forall|j: int| 0 <= j < i + 1 implies is_key_char(#[trigger] key@[j]) by {
                if j < i {
                    assert(key@[j] == before[j]);
                } else {
                    assert(key@[j] == c@[0]);
                }
            };
        }
        i = i + 1;
    }
    key
}

/// Whether `s` is enclosed in double quotes: at least two characters, a quote at each end.
pub open spec fn is_quoted(s: Seq<char>) -> bool {
    s.len() >= 2 && s[0] == '"' && s[s.len() - 1] == '"'
}

/// Takes off one pair of enclosing double quotes; any other text is returned as it is.
pub fn strip_outer_quotes(s: &str) -> (r: &str)
    ensures
        is_quoted(s@) ==> r@ == s@.subrange(1, s@.len() - 1),
        !is_quoted(s@) ==> r@ == s@,
{
    let n = s.unicode_len();
    if n >= 2 && s.get_char(0) == '"' && s.get_char(n - 1) == '"' {
        s.substring_char(1, n - 1)
    } else {
        s
    }
}

} // verus!
