//! Block records, their canonical JSON form and their hash.
use sha2::Digest;
use vstd::prelude::*;
use crate::text::{decimal, push_decimal, push_text};

verus! {

/// The latest publication time a block can carry: 9999-12-31T23:59:59Z,
/// the last second that RFC 3339 can write with a four-digit year.
pub const MAX_TIMESTAMP: i64 = 253402300799;

/// One entry of the chain, produced from one admitted vote.
#[derive(Clone, Debug, PartialEq, Eq)]
pub struct Block {
    /// Position in the chain, counted from 0.
    pub index: usize,
    /// Publication time of the originating commit, in seconds since the Unix epoch (UTC).
    pub timestamp: i64,
    pub choice: String,
    pub voter: String,
    /// Canonical hash of the previous block; `None` for the first block.
    pub prev_hash: Option<String>,
}

/// The mathematical value of a [`Block`].
pub struct BlockView {
    pub index: nat,
    pub timestamp: int,
    pub choice: Seq<char>,
    pub voter: Seq<char>,
    pub prev_hash: Option<Seq<char>>,
}

pub open spec fn opt_view(o: Option<String>) -> Option<Seq<char>> {
    match o {
        Some(s) => Some(s@),
        None => None,
    }
}

impl View for Block {
    type V = BlockView;

    open spec fn view(&self) -> BlockView {
        BlockView {
            index: self.index as nat,
            timestamp: self.timestamp as int,
            choice: self.choice@,
            voter: self.voter@,
            prev_hash: opt_view(self.prev_hash),
        }
    }
}

/// Whether `t` is a publication time that a block can carry.
pub open spec fn timestamp_in_range(t: int) -> bool {
    0 <= t <= MAX_TIMESTAMP
}

/// The lowercase hexadecimal digit of `d`, for `d < 16`.
pub open spec fn hex_digit(d: nat) -> char {
    if d < 10 {
        crate::text::digit_char(d)
    } else if d == 10 { 'a' }
    else if d == 11 { 'b' }
    else if d == 12 { 'c' }
    else if d == 13 { 'd' }
    else if d == 14 { 'e' }
    else { 'f' }
}

/// Whether `c` is a lowercase hexadecimal digit.
pub open spec fn is_lower_hex(c: char) -> bool {
    ('0' <= c <= '9') || ('a' <= c <= 'f')
}

/// How serde_json writes one character inside a JSON string: quote and
/// backslash escaped, the five short control escapes, other characters
/// below U+0020 as `\u00xx`, everything else as it is.
pub open spec fn escape_char(c: char) -> Seq<char> {
    let u = c as u32;
    if c == '"' {
        seq!['\\', '"']
    } else if c == '\\' {
        seq!['\\', '\\']
    } else if u == 0x08 {
        seq!['\\', 'b']
    } else if c == '\t' {
        seq!['\\', 't']
    } else if c == '\n' {
        seq!['\\', 'n']
    } else if u == 0x0c {
        seq!['\\', 'f']
    } else if c == '\r' {
        seq!['\\', 'r']
    } else if u < 0x20 {
        seq!['\\', 'u', '0', '0', hex_digit((u / 16) as nat), hex_digit((u % 16) as nat)]
    } else {
        seq![c]
    }
}

/// The characters of a text, each escaped as in a JSON string.
pub open spec fn escaped(s: Seq<char>) -> Seq<char>
    decreases s.len(),
{
    if s.len() == 0 {
        Seq::empty()
    } else {
        escaped(s.drop_last()) + escape_char(s.last())
    }
}

/// The JSON string literal of a text: quoted and escaped.
pub open spec fn json_string_of(s: Seq<char>) -> Seq<char> {
    seq!['"'] + escaped(s) + seq!['"']
}

/// The RFC 3339 form of a UTC time given in seconds since the epoch, with
/// second precision and the `Z` suffix, as chrono writes it.
pub uninterp spec fn rfc3339_of(secs: int) -> Seq<char>;

/// The SHA-256 digest of the UTF-8 encoding of a text, in lowercase hex.
pub uninterp spec fn sha256_hex_of(text: Seq<char>) -> Seq<char>;

/// Relies on `serde_json::to_string` applied to a `str`: it writes the JSON
/// string literal for it, escaping by serde_json's `ESCAPE` table and
/// `write_char_escape`. Serialising a string into memory does not fail.
#[verifier::external_body]
fn json_string(s: &str) -> (r: String)
    ensures
        r@ == json_string_of(s@),
{
    match serde_json::to_string(s) {
        Ok(t) => t,
        Err(_) => String::new(),
    }
}

/// Relies on chrono's `DateTime::<Utc>::from_timestamp` (which yields a value
/// for every second from the epoch to the year 9999) and on
/// `to_rfc3339_opts(SecondsFormat::Secs, true)` to write it.
#[verifier::external_body]
fn rfc3339(secs: i64) -> (r: String)
    requires
        timestamp_in_range(secs as int),
    ensures
        r@ == rfc3339_of(secs as int),
{
    match chrono::DateTime::from_timestamp(secs, 0) {
        Some(t) => t.to_rfc3339_opts(chrono::SecondsFormat::Secs, true),
        None => String::new(),
    }
}

/// Relies on `sha2::Sha256::digest` over the UTF-8 bytes of `text`, written
/// out in lowercase hex by the digest's `LowerHex` formatting: two digits
/// for each of the 32 bytes.
#[verifier::external_body]
pub(crate) fn sha256_hex(text: &str) -> (r: String)
    ensures
        r@ == sha256_hex_of(text@),
        r@.len() == 64,
        forall|i: int| 0 <= i < r@.len() ==> is_lower_hex(#[trigger] r@[i]),
{
    format!("{:x}", sha2::Sha256::digest(text.as_bytes()))
}

/// The JSON value written for `prev_hash`: `null` when absent.
pub open spec fn prev_hash_json(h: Option<Seq<char>>) -> Seq<char> {
    match h {
        Some(s) => json_string_of(s),
        None => "null"@,
    }
}

/// The canonical form of a block: compact JSON with the fields in the order
/// `index, timestamp, choice, voter, prev_hash`.
pub open spec fn canonical_form(b: BlockView) -> Seq<char> {
    "{\"index\":"@ + decimal(b.index) + ",\"timestamp\":"@ + json_string_of(rfc3339_of(b.timestamp))
        + ",\"choice\":"@ + json_string_of(b.choice) + ",\"voter\":"@ + json_string_of(b.voter)
        + ",\"prev_hash\":"@ + prev_hash_json(b.prev_hash) + "}"@
}

/// The canonical hash of a block: SHA-256 of its canonical form.
pub open spec fn block_hash_of(b: BlockView) -> Seq<char> {
    sha256_hex_of(canonical_form(b))
}

impl Block {
    /// The canonical form of this block, the text that its hash is taken over.
    pub fn canonical_json(&self) -> (r: String)
        requires
            timestamp_in_range(self.timestamp as int),
        ensures
            r@ == canonical_form(self@),
    {
        let mut out = String::new();
        push_text(&mut out, "{\"index\":");
        push_decimal(&mut out, self.index as u64);
        push_text(&mut out, ",\"timestamp\":");
        let when = rfc3339(self.timestamp);
        let when_json = json_string(when.as_str());
        push_text(&mut out, when_json.as_str());
        push_text(&mut out, ",\"choice\":");
        let choice_json = json_string(self.choice.as_str());
        push_text(&mut out, choice_json.as_str());
        push_text(&mut out, ",\"voter\":");
        let voter_json = json_string(self.voter.as_str());
        push_text(&mut out, voter_json.as_str());
        push_text(&mut out, ",\"prev_hash\":");
        match &self.prev_hash {
            Some(h) => {
                let h_json = json_string(h.as_str());
                push_text(&mut out, h_json.as_str());
            },
            None => {
                push_text(&mut out, "null");
            },
        }
        push_text(&mut out, "}");
        out
    }

    /// The canonical hash of this block, lowercase hex without prefix.
    pub fn block_hash(&self) -> (r: String)
        requires
            timestamp_in_range(self.timestamp as int),
        ensures
            r@ == block_hash_of(self@),
    {
        let form = self.canonical_json();
        sha256_hex(form.as_str())
    }
}

} // verus!

verus! {

/// The values of a sequence of blocks.
pub open spec fn blocks_view(s: Seq<Block>) -> Seq<BlockView> {
    s.map_values(|b: Block| b@)
}

} // verus!

verus! {

/// A copy of an optional text.
pub fn copy_opt(o: &Option<String>) -> (r: Option<String>)
    ensures
        opt_view(r) == opt_view(*o),
{
    match o {
        Some(s) => Some(s.clone()),
        None => None,
    }
}

/// Whether two optional texts are equal.
pub fn opt_text_eq(a: &Option<String>, b: &Option<String>) -> (r: bool)
    ensures
        r == (opt_view(*a) == opt_view(*b)),
{
    match (a, b) {
        (Some(x), Some(y)) => *x == *y,
        (None, None) => true,
        _ => false,
    }
}

} // verus!
