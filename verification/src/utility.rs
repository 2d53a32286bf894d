use vstd::prelude::*;
use vstd::string::StrSliceExecFns;
use rand::Rng;

verus! {

// ---------------------------------------------------------------------------
// Hexadecimal rendering of byte strings (used for content digests and
// passcode hashes).
// ---------------------------------------------------------------------------

/// The lower-case hexadecimal digit for a nibble.
pub open spec fn hex_char_of(n: u8) -> char
    recommends
        n < 16,
{
    if n < 10 {
        (('0' as u8) + n) as char
    } else {
        (('a' as u8) + (n - 10)) as char
    }
}

/// The lower-case hexadecimal rendering of a byte string: two digits per byte,
/// high nibble first.
pub open spec fn hex_of(bytes: Seq<u8>) -> Seq<char>
    decreases bytes.len(),
{
    if bytes.len() == 0 {
        Seq::empty()
    } else {
        hex_of(bytes.drop_last()) + seq![
            hex_char_of(bytes.last() / 16),
            hex_char_of(bytes.last() % 16),
        ]
    }
}

/// One hexadecimal digit as a string slice.
fn hex_digit_str(n: u8) -> (r: &'static str)
    requires
        n < 16,
    ensures
        r@ == seq![hex_char_of(n)],
{
    proof {
        reveal_strlit("0");
        reveal_strlit("1");
        reveal_strlit("2");
        reveal_strlit("3");
        reveal_strlit("4");
        reveal_strlit("5");
        reveal_strlit("6");
        reveal_strlit("7");
        reveal_strlit("8");
        reveal_strlit("9");
        reveal_strlit("a");
        reveal_strlit("b");
        reveal_strlit("c");
        reveal_strlit("d");
        reveal_strlit("e");
        reveal_strlit("f");
    }
    match n {
        0 => "0",
        1 => "1",
        2 => "2",
        3 => "3",
        4 => "4",
        5 => "5",
        6 => "6",
        7 => "7",
        8 => "8",
        9 => "9",
        10 => "a",
        11 => "b",
        12 => "c",
        13 => "d",
        14 => "e",
        _ => "f",
    }
}

/// Renders a byte string as lower-case hexadecimal.
pub fn u8_to_hex_str(bytes: &[u8]) -> (r: String)
    ensures
        r@ == hex_of(bytes@),
{
    let mut out = String::new();
    let mut i: usize = 0;
    while i < bytes.len()
        invariant
            i <= bytes@.len(),
            out@ == hex_of(bytes@.take(i as int)),
        decreases bytes@.len() - i,
    {
        let b = bytes[i];
        out.append(hex_digit_str(b / 16));
        out.append(hex_digit_str(b % 16));
        i = i + 1;
        proof {
            assert(bytes@.take(i as int).drop_last() =~= bytes@.take(i - 1));
            assert(bytes@.take(i as int).last() == bytes@[i - 1]);
        }
    }
    proof {
        assert(bytes@.take(bytes@.len() as int) =~= bytes@);
    }
    out
}

/// Compares two string slices character by character.
pub fn str_eq(a: &str, b: &str) -> (r: bool)
    ensures
        r == (a@ == b@),
{
    let n = a.unicode_len();
    let m = b.unicode_len();
    if n != m {
        return false;
    }
    let mut i: usize = 0;
    while i < n
        invariant
            i <= n,
            n == a@.len(),
            n == b@.len(),
            forall|j: int| 0 <= j < i ==> a@[j] == b@[j],
        decreases n - i,
    {
        if a.get_char(i) != b.get_char(i) {
            return false;
        }
        i = i + 1;
    }
    proof {
        assert(a@ =~= b@);
    }
    true
}

// ---------------------------------------------------------------------------
// File-name extensions.
// ---------------------------------------------------------------------------

/// Position `i` holds the last `.` of `s`, and that dot is not the first
/// character (a name that is nothing but a leading dot carries no extension).
pub open spec fn is_last_dot(s: Seq<char>, i: int) -> bool {
    &&& 1 <= i < s.len()
    &&& s[i] == '.'
    &&& forall|j: int| i < j < s.len() ==> s[j] != '.'
}

/// Whether a client-supplied file name carries an extension.
pub open spec fn has_extension(s: Seq<char>) -> bool {
    exists|i: int| is_last_dot(s, i)
}

/// The characters after the last dot of `s`.
pub open spec fn extension_of(s: Seq<char>) -> Seq<char>
    recommends
        has_extension(s),
{
    s.subrange((choose|i: int| is_last_dot(s, i)) + 1, s.len() as int)
}

proof fn lemma_last_dot_unique(s: Seq<char>, i: int, j: int)
    requires
        is_last_dot(s, i),
        is_last_dot(s, j),
    ensures
        i == j,
{
    if i < j {
        assert(s[j] != '.');
    }
    if j < i {
        assert(s[i] != '.');
    }
}

/// The extension of a client file name, if it has one.
pub fn file_extension(name: &str) -> (r: Option<String>)
    ensures
        match r {
            Some(e) => has_extension(name@) && e@ == extension_of(name@),
            None => !has_extension(name@),
        },
{
    let n = name.unicode_len();
    let mut i: usize = n;
    while i > 0
        invariant
            i <= n,
            n == name@.len(),
            forall|j: int| i <= j < n ==> name@[j] != '.',
        decreases i,
    {
        if name.get_char(i - 1) == '.' {
            if i - 1 >= 1 {
                proof {
                    assert(is_last_dot(name@, i - 1));
                    lemma_last_dot_unique(
                        name@,
                        i - 1,
                        choose|k: int| is_last_dot(name@, k),
                    );
                }
                let e = name.substring_char(i, n);
                return Some(e.to_owned());
            } else {
                proof {
                    assert forall|k: int| !is_last_dot(name@, k) by {
                        if 1 <= k < name@.len() && name@[k] == '.' {
                            assert(k < i);
                        }
                    }
                }
                return None;
            }
        }
        i = i - 1;
    }
    proof {
        assert forall|k: int| !is_last_dot(name@, k) by {
            if 1 <= k < name@.len() && name@[k] == '.' {
            }
        }
    }
    None
}

/// The extension of a file name that is known to carry one.
pub fn get_file_type(file_path: &str) -> (r: String)
    requires
        has_extension(file_path@),
    ensures
        r@ == extension_of(file_path@),
{
    match file_extension(file_path) {
        Some(e) => e,
        None => vstd::pervasive::unreached(),
    }
}

// ---------------------------------------------------------------------------
// Randomly drawn values and the clock, behind trusted wrappers.
// ---------------------------------------------------------------------------

/// An ASCII letter or digit (the alphabet the salt is drawn from), by
/// character code: `0`-`9`, `A`-`Z`, `a`-`z`.
pub open spec fn is_alphanumeric_char(c: char) -> bool {
    ||| 48 <= c as int <= 57
    ||| 65 <= c as int <= 90
    ||| 97 <= c as int <= 122
}

/// Relies on rand's `Alphanumeric` distribution: every sampled byte is one of
/// the 62 ASCII letters and digits, and `take(salt_len)` draws exactly
/// `salt_len` of them. Which characters come out is random and nothing is
/// promised of it.
#[verifier::external_body]
pub fn genarate_salt(salt_len: usize) -> (r: String)
    ensures
        r@.len() == salt_len,
        forall|i: int| 0 <= i < r@.len() ==> is_alphanumeric_char(#[trigger] r@[i]),
{
    rand::thread_rng()
        .sample_iter(&rand::distributions::Alphanumeric)
        .take(salt_len)
        .map(char::from)
        .collect()
}

/// The hyphenated rendering of a 128-bit identifier, a function of the value
/// alone.
pub uninterp spec fn uuid_str_of(id: u128) -> Seq<char>;

/// Relies on uuid's `Uuid::new_v4`: a freshly drawn random identifier,
/// handed back as its 128-bit value. Nothing is promised of the value.
#[verifier::external_body]
pub fn new_uuid() -> u128 {
    uuid::Uuid::new_v4().as_u128()
}

/// Relies on uuid's hyphenated `Display` format: 36 characters determined by
/// the 128-bit value alone.
#[verifier::external_body]
pub fn uuid_to_string(id: u128) -> (r: String)
    ensures
        r@ == uuid_str_of(id),
        r@.len() == 36,
{
    uuid::Uuid::from_u128(id).to_string()
}

/// Relies on chrono's `Utc::now`: the number of whole seconds since the Unix
/// epoch at the moment of the call. Nothing is promised of the value.
#[verifier::external_body]
pub fn current_timestamp() -> i64 {
    chrono::Utc::now().timestamp()
}

} // verus!
