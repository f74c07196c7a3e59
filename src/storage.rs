//! Naming rules of the key-value string store.
use vstd::prelude::*;

use crate::text::{chars_of, string_of};

verus! {

/// Where stored objects live.
#[derive(Debug, Clone, Copy, PartialEq, Eq)]
pub enum StorageScope {
    /// Objects may disappear as soon as the store that holds them is dropped.
    Object,
    /// Objects live in system temporary storage and are not removed when the store is dropped.
    Temporary,
    /// Objects stay available to the current user.
    User,
}

/// A character that a key may hold to be used as a file name as it stands.
pub open spec fn is_key_char(c: char) -> bool {
    ('a' <= c && c <= 'z') || ('A' <= c && c <= 'Z') || ('0' <= c && c <= '9') || c == '_' || c == '-'
}

/// A key short and plain enough to name its file itself.
pub open spec fn is_plain_key(key: Seq<char>) -> bool {
    key.len() < 32 && forall|k: int| 0 <= k < key.len() ==> is_key_char(#[trigger] key[k])
}

pub open spec fn hex_digit(d: int) -> char {
    if d < 10 {
        ((d + 48) as u8) as char
    } else {
        ((d + 87) as u8) as char
    }
}

/// The lowercase hexadecimal digits of `n`, without leading zeros.
pub open spec fn hex_text(n: nat) -> Seq<char>
    decreases n,
{
    if n < 16 {
        seq![hex_digit(n as int)]
    } else {
        hex_text(n / 16).push(hex_digit((n % 16) as int))
    }
}

pub open spec fn plain_prefix() -> Seq<char> {
    seq!['l', 'i', 't', 'e', 'r', 'a', 'l', '_', 'k', 'e', 'y', '_']
}

pub open spec fn hashed_prefix() -> Seq<char> {
    seq!['_', 'h', 'a', 's', 'h', 'e', 'd', '_', 'k', 'e', 'y', '_']
}

/// The 64-bit hash that std's `DefaultHasher` gives the text of a key.
pub uninterp spec fn default_hash(key: Seq<char>) -> u64;

/// Relies on `BuildHasher::hash_one` with std's `DefaultHasher`. Every `DefaultHasher` made by
/// `new` or `default` is the same one, so the hash depends on the key's text alone; the
/// algorithm itself is left unspecified by the standard library.
#[verifier::external_body]
fn key_hash(key: &str) -> (r: u64)
    ensures
        r == default_hash(key@),
{
    std::hash::BuildHasher::hash_one(&std::hash::BuildHasherDefault::<std::hash::DefaultHasher>::default(), key)
}

/// Hexadecimal digits are characters that a file name may hold.
pub proof fn lemma_hex_text_key_chars(n: nat)
    ensures
        forall|k: int| 0 <= k < hex_text(n).len() ==> is_key_char(#[trigger] hex_text(n)[k]),
    decreases n,
{
    if n >= 16 {
        lemma_hex_text_key_chars(n / 16);
        let t = hex_text(n / 16);
        assert(forall|k: int| 0 <= k < t.len() ==> hex_text(n)[k] == t[k]);
    }
}

fn push_prefix(out: &mut Vec<char>, p: &str)
    ensures
        final(out)@ == old(out)@ + p@,
{
    let cs = chars_of(p);
    let mut j: usize = 0;
    while j < cs.len()
        invariant
            j <= cs.len(),
            cs@ == p@,
            out@ == old(out)@ + cs@.subrange(0, j as int),
        decreases cs.len() - j,
    {
        proof {
            assert(cs@.subrange(0, j + 1) =~= cs@.subrange(0, j as int).push(cs@[j as int]));
        }
        out.push(cs[j]);
        j = j + 1;
    }
    proof {
        assert(cs@.subrange(0, cs.len() as int) =~= cs@);
    }
}

fn push_hex(n: u64, out: &mut Vec<char>)
    ensures
        final(out)@ == old(out)@ + hex_text(n as nat),
    decreases n,
{
    if n >= 16 {
        push_hex(n / 16, out);
    }
    let d: u8 = (n % 16) as u8;
    let c = if d < 10 { (d + 48) as char } else { (d + 87) as char };
    out.push(c);
    proof {
        if n >= 16 {
            assert(hex_text(n as nat) == hex_text((n / 16) as nat).push(hex_digit((n % 16) as int)));
        }
        assert(final(out)@ =~= old(out)@ + hex_text(n as nat));
    }
}

/// The file name under which a key whose hash is `hash` is stored, where the key is not plain.
pub fn hashed_filename(hash: u64) -> (r: String)
    ensures
        r@ == hashed_prefix() + hex_text(hash as nat),
{
    let mut out: Vec<char> = Vec::new();
    proof {
        reveal_strlit("_hashed_key_");
    }
    push_prefix(&mut out, "_hashed_key_");
    push_hex(hash, &mut out);
    proof {
        assert(out@ =~= hashed_prefix() + hex_text(hash as nat));
    }
    string_of(&out)
}

fn plain_key(cs: &Vec<char>) -> (r: bool)
    ensures
        r == is_plain_key(cs@),
{
    if cs.len() >= 32 {
        return false;
    }
    let mut j: usize = 0;
    while j < cs.len()
        invariant
            j <= cs.len() < 32,
            forall|k: int| 0 <= k < j ==> is_key_char(#[trigger] cs@[k]),
        decreases cs.len() - j,
    {
        let c = cs[j];
        if !(('a' <= c && c <= 'z') || ('A' <= c && c <= 'Z') || ('0' <= c && c <= '9') || c == '_'
            || c == '-') {
            return false;
        }
        j = j + 1;
    }
    true
}

/// A file name for `key`: the key itself behind a prefix where it is plain, else its hash in
/// hexadecimal behind another prefix.
pub fn filename_for_key(key: &str) -> (r: String)
    ensures
        is_plain_key(key@) ==> r@ == plain_prefix() + key@,
        !is_plain_key(key@) ==> r@ == hashed_prefix() + hex_text(default_hash(key@) as nat),
        forall|k: int| 0 <= k < r@.len() ==> is_key_char(#[trigger] r@[k]),
{
    let cs = chars_of(key);
    if plain_key(&cs) {
        let mut out: Vec<char> = Vec::new();
        proof {
            reveal_strlit("literal_key_");
        }
        push_prefix(&mut out, "literal_key_");
        push_prefix(&mut out, key);
        proof {
            assert(out@ =~= plain_prefix() + key@);
            assert forall|k: int| 0 <= k < out@.len() implies is_key_char(#[trigger] out@[k]) by {
                if k >= 12 {
                    assert(out@[k] == key@[k - 12]);
                }
            }
        }
        string_of(&out)
    } else {
        let h: u64 = key_hash(key);
        let r = hashed_filename(h);
        proof {
            lemma_hex_text_key_chars(h as nat);
            assert forall|k: int| 0 <= k < r@.len() implies is_key_char(#[trigger] r@[k]) by {
                if k >= 12 {
                    assert(r@[k] == hex_text(h as nat)[k - 12]);
                }
            }
        }
        r
    }
}

} // verus!
