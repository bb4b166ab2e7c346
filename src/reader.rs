//! Parsing of what the version-control tool prints about a commit: the
//! files it added, the key that signed it and its publication time.
use vstd::prelude::*;
use crate::block::MAX_TIMESTAMP;
use crate::text::{chars_of, has_prefix, push_char};

verus! {

/// Splits text at `\n`: the finished lines and the line still open.
pub open spec fn line_split(s: Seq<char>) -> (Seq<Seq<char>>, Seq<char>)
    decreases s.len(),
{
    if s.len() == 0 {
        (Seq::empty(), Seq::empty())
    } else {
        let before = line_split(s.drop_last());
        if s.last() == '\n' {
            (before.0.push(before.1), Seq::empty())
        } else {
            (before.0, before.1.push(s.last()))
        }
    }
}

/// A line without its carriage return, if it ends in one.
pub open spec fn strip_cr(l: Seq<char>) -> Seq<char> {
    if l.len() > 0 && l.last() == '\r' {
        l.drop_last()
    } else {
        l
    }
}

/// The lines of a text as `str::lines` gives them: split at `\n`, a final
/// `\r` removed from each, and no empty line after a final `\n`.
pub open spec fn lines_of(s: Seq<char>) -> Seq<Seq<char>> {
    let parts = line_split(s);
    let all = if parts.1.len() == 0 {
        parts.0
    } else {
        parts.0.push(parts.1)
    };
    all.map_values(|l: Seq<char>| strip_cr(l))
}

/// The characters that `char::is_whitespace` accepts: Unicode `White_Space`.
pub open spec fn is_space(c: char) -> bool {
    let u = c as u32;
    (0x9 <= u <= 0xd) || u == 0x20 || u == 0x85 || u == 0xa0 || u == 0x1680 || (0x2000 <= u <= 0x200a)
        || u == 0x2028 || u == 0x2029 || u == 0x202f || u == 0x205f || u == 0x3000
}

/// Splits text into runs of non-space characters: the finished words and the word still open.
pub open spec fn word_split(s: Seq<char>) -> (Seq<Seq<char>>, Seq<char>)
    decreases s.len(),
{
    if s.len() == 0 {
        (Seq::empty(), Seq::empty())
    } else {
        let before = word_split(s.drop_last());
        if is_space(s.last()) {
            if before.1.len() > 0 {
                (before.0.push(before.1), Seq::empty())
            } else {
                (before.0, Seq::empty())
            }
        } else {
            (before.0, before.1.push(s.last()))
        }
    }
}

/// The words of a text as `str::split_whitespace` gives them.
pub open spec fn words_of(s: Seq<char>) -> Seq<Seq<char>> {
    let parts = word_split(s);
    if parts.1.len() == 0 {
        parts.0
    } else {
        parts.0.push(parts.1)
    }
}

fn space(c: char) -> (r: bool)
    ensures
        r == is_space(c),
{
    let u = c as u32;
    (0x9 <= u && u <= 0xd) || u == 0x20 || u == 0x85 || u == 0xa0 || u == 0x1680 || (0x2000 <= u && u
        <= 0x200a) || u == 0x2028 || u == 0x2029 || u == 0x202f || u == 0x205f || u == 0x3000
}

/// A string holding the characters `cs`.
pub fn string_of(cs: &Vec<char>) -> (r: String)
    ensures
        r@ == cs@,
{
    let mut out = String::new();
    for i in 0..cs.len()
        invariant
            out@ == cs@.take(i as int),
    {
        push_char(&mut out, cs[i]);
        assert(cs@.take(i + 1) =~= cs@.take(i as int).push(cs@[i as int]));
    }
    assert(cs@.take(cs.len() as int) =~= cs@);
    out
}

fn strip_cr_exec(l: Vec<char>) -> (r: Vec<char>)
    ensures
        r@ == strip_cr(l@),
{
    let mut l = l;
    if l.len() > 0 && l[l.len() - 1] == '\r' {
        l.pop();
    }
    l
}

/// The lines of `s`, each as its characters.
pub fn split_lines(s: &str) -> (r: Vec<Vec<char>>)
    ensures
        r@.map_values(|l: Vec<char>| l@) == lines_of(s@),
{
    let cs = chars_of(s);
    let mut done: Vec<Vec<char>> = Vec::new();
    let mut cur: Vec<char> = Vec::new();
    let ghost mut raw: Seq<Seq<char>> = Seq::empty();
    assert(cs@.take(0) =~= Seq::<char>::empty());
    for i in 0..cs.len()
        invariant
            cs@ == s@,
            line_split(cs@.take(i as int)) == (raw, cur@),
            done@.len() == raw.len(),
            forall|k: int| 0 <= k < raw.len() ==> #[trigger] done@[k]@ == strip_cr(raw[k]),
    {
        assert(cs@.take(i + 1).drop_last() =~= cs@.take(i as int));
        let c = cs[i];
        if c == '\n' {
            let line = cur;
            cur = Vec::new();
            proof {
                raw = raw.push(line@);
            }
            done.push(strip_cr_exec(line));
        } else {
            cur.push(c);
        }
    }
    assert(cs@.take(cs.len() as int) =~= cs@);
    if cur.len() > 0 {
        proof {
            raw = raw.push(cur@);
        }
        done.push(strip_cr_exec(cur));
    }
    assert(done@.map_values(|l: Vec<char>| l@) =~= lines_of(s@));
    done
}

fn split_words(cs: &Vec<char>) -> (r: Vec<Vec<char>>)
    ensures
        r@.map_values(|w: Vec<char>| w@) == words_of(cs@),
{
    let mut done: Vec<Vec<char>> = Vec::new();
    let mut cur: Vec<char> = Vec::new();
    let ghost mut ws: Seq<Seq<char>> = Seq::empty();
    assert(cs@.take(0) =~= Seq::<char>::empty());
    for i in 0..cs.len()
        invariant
            word_split(cs@.take(i as int)) == (ws, cur@),
            done@.map_values(|w: Vec<char>| w@) == ws,
    {
        assert(cs@.take(i + 1).drop_last() =~= cs@.take(i as int));
        let c = cs[i];
        if space(c) {
            if cur.len() > 0 {
                let word = cur;
                cur = Vec::new();
                proof {
                    ws = ws.push(word@);
                }
                let ghost before = done@;
                done.push(word);
                assert(done@.map_values(|w: Vec<char>| w@) =~= before.map_values(|w: Vec<char>| w@).push(word@));
            }
        } else {
            cur.push(c);
        }
    }
    assert(cs@.take(cs.len() as int) =~= cs@);
    if cur.len() > 0 {
        let ghost before = done@;
        let ghost last = cur@;
        done.push(cur);
        assert(done@.map_values(|w: Vec<char>| w@) =~= before.map_values(|w: Vec<char>| w@).push(last));
    }
    done
}

/// Whether the characters `cs`, from position `at`, begin with `prefix`.
fn starts_at(cs: &Vec<char>, at: usize, prefix: &Vec<char>) -> (r: bool)
    requires
        at <= cs.len(),
    ensures
        r == has_prefix(cs@.subrange(at as int, cs@.len() as int), prefix@),
{
    let ghost rest = cs@.subrange(at as int, cs@.len() as int);
    if cs.len() - at < prefix.len() {
        return false;
    }
    for k in 0..prefix.len()
        invariant
            rest == cs@.subrange(at as int, cs@.len() as int),
            at + prefix.len() <= cs.len(),
            forall|j: int| 0 <= j < k ==> rest[j] == prefix@[j],
    {
        if cs[at + k] != prefix[k] {
            assert(rest.subrange(0, prefix@.len() as int)[k as int] != prefix@[k as int]);
            return false;
        }
    }
    assert(rest.subrange(0, prefix@.len() as int) =~= prefix@);
    true
}

/// The path of a `diff-tree --name-status` line that reports an added file.
pub open spec fn added_path_of(line: Seq<char>) -> Option<Seq<char>> {
    if line.len() >= 2 && line[0] == 'A' && line[1] == '\t' {
        Some(line.subrange(2, line.len() as int))
    } else {
        None
    }
}

/// The added paths among lines, in order.
pub open spec fn added_in(ls: Seq<Seq<char>>) -> Seq<Seq<char>>
    decreases ls.len(),
{
    if ls.len() == 0 {
        Seq::empty()
    } else {
        let before = added_in(ls.drop_last());
        match added_path_of(ls.last()) {
            Some(p) => before.push(p),
            None => before,
        }
    }
}

/// The paths that a commit added, read from `git diff-tree --name-status`
/// output: the lines of status `A`, in the order printed.
pub fn added_paths(diff: &str) -> (r: Vec<String>)
    ensures
        r@.map_values(|p: String| p@) == added_in(lines_of(diff@)),
{
    let ls = split_lines(diff);
    let ghost lv = ls@.map_values(|l: Vec<char>| l@);
    let mut out: Vec<String> = Vec::new();
    assert(lv.take(0) =~= Seq::<Seq<char>>::empty());
    for i in 0..ls.len()
        invariant
            lv == ls@.map_values(|l: Vec<char>| l@),
            out@.map_values(|p: String| p@) == added_in(lv.take(i as int)),
    {
        assert(lv.take(i + 1).drop_last() =~= lv.take(i as int));
        assert(lv.take(i + 1).last() == ls@[i as int]@);
        let line = &ls[i];
        if line.len() >= 2 && line[0] == 'A' && line[1] == '\t' {
            let mut path: Vec<char> = Vec::new();
            for k in 2..line.len()
                invariant
                    2 <= line.len(),
                    path@ == line@.subrange(2, k as int),
            {
                path.push(line[k]);
                assert(line@.subrange(2, k + 1) =~= line@.subrange(2, k as int).push(line@[k as int]));
            }
            let ghost before = out@;
            let p = string_of(&path);
            out.push(p);
            assert(out@.map_values(|p: String| p@) =~= before.map_values(|p: String| p@).push(path@));
        }
    }
    assert(lv.take(ls.len() as int) =~= lv);
    out
}

/// The key that a line of `git log --show-signature` output names, where
/// the line reports the signing key (`using <algorithm> key <fingerprint>`).
pub open spec fn line_key(line: Seq<char>) -> Option<Seq<char>> {
    let prefix = "gpg:                using "@;
    if has_prefix(line, prefix) {
        let w = words_of(line.subrange(prefix.len() as int, line.len() as int));
        if w.len() >= 3 && w[1] == "key"@ {
            Some(w[2])
        } else {
            None
        }
    } else {
        None
    }
}

/// The key named by the first line that names one.
pub open spec fn first_key(ls: Seq<Seq<char>>) -> Option<Seq<char>>
    decreases ls.len(),
{
    if ls.len() == 0 {
        None
    } else {
        match line_key(ls[0]) {
            Some(k) => Some(k),
            None => first_key(ls.drop_first()),
        }
    }
}

fn key_in_line(line: &Vec<char>) -> (r: Option<String>)
    ensures
        match r {
            Some(s) => line_key(line@) == Some(s@),
            None => line_key(line@) is None,
        },
{
    let prefix = chars_of("gpg:                using ");
    let key = string_of(&chars_of("key"));
    assert(line@.subrange(0, line@.len() as int) =~= line@);
    if !starts_at(line, 0, &prefix) {
        return None;
    }
    let mut tail: Vec<char> = Vec::new();
    for k in prefix.len()..line.len()
        invariant
            prefix.len() <= line.len(),
            tail@ == line@.subrange(prefix.len() as int, k as int),
    {
        tail.push(line[k]);
        assert(line@.subrange(prefix.len() as int, k + 1) =~= line@.subrange(prefix.len() as int, k as int).push(line@[k as int]));
    }
    let words = split_words(&tail);
    let ghost wv = words@.map_values(|w: Vec<char>| w@);
    if words.len() < 3 {
        return None;
    }
    let w1 = string_of(&words[1]);
    assert(w1@ == wv[1]);
    if w1 == key {
        let f = string_of(&words[2]);
        assert(f@ == wv[2]);
        Some(f)
    } else {
        None
    }
}

/// Whether some line begins with `prefix`.
pub open spec fn reports(ls: Seq<Seq<char>>, prefix: Seq<char>) -> bool {
    exists|i: int| 0 <= i < ls.len() && has_prefix(ls[i], prefix)
}

/// The signer identity that `git log --show-signature` output attests: the
/// key fingerprint that it names, but only where gpg reports a good
/// signature and no bad one.
pub open spec fn verified_key(ls: Seq<Seq<char>>) -> Option<Seq<char>> {
    if reports(ls, "gpg: Good signature"@) && !reports(ls, "gpg: BAD signature"@) {
        first_key(ls)
    } else {
        None
    }
}

fn any_line_starts(ls: &Vec<Vec<char>>, prefix: &str) -> (r: bool)
    ensures
        r == reports(ls@.map_values(|l: Vec<char>| l@), prefix@),
{
    let ghost lv = ls@.map_values(|l: Vec<char>| l@);
    let p = chars_of(prefix);
    for i in 0..ls.len()
        invariant
            lv == ls@.map_values(|l: Vec<char>| l@),
            p@ == prefix@,
            forall|k: int| 0 <= k < i ==> !has_prefix(#[trigger] lv[k], prefix@),
    {
        assert(ls@[i as int]@.subrange(0, ls@[i as int]@.len() as int) =~= ls@[i as int]@);
        if starts_at(&ls[i], 0, &p) {
            assert(has_prefix(lv[i as int], prefix@));
            return true;
        }
    }
    false
}

/// The signer identity of a commit, read from `git log --show-signature`
/// output: the key fingerprint it names when gpg reports a good signature
/// and no bad one; `None` for an unsigned commit or one whose signature does
/// not verify.
pub fn signer_fingerprint(log: &str) -> (r: Option<String>)
    ensures
        match r {
            Some(s) => verified_key(lines_of(log@)) == Some(s@),
            None => verified_key(lines_of(log@)) is None,
        },
{
    let ls = split_lines(log);
    let ghost lv = ls@.map_values(|l: Vec<char>| l@);
    if !any_line_starts(&ls, "gpg: Good signature") || any_line_starts(&ls, "gpg: BAD signature") {
        return None;
    }
    assert(lv.subrange(0, lv.len() as int) =~= lv);
    for i in 0..ls.len()
        invariant
            lv == ls@.map_values(|l: Vec<char>| l@),
            lv == lines_of(log@),
            verified_key(lv) == first_key(lv),
            first_key(lv) == first_key(lv.subrange(i as int, lv.len() as int)),
    {
        let ghost rest = lv.subrange(i as int, lv.len() as int);
        assert(rest.drop_first() =~= lv.subrange(i + 1, lv.len() as int));
        assert(rest[0] == ls@[i as int]@);
        if let Some(f) = key_in_line(&ls[i]) {
            return Some(f);
        }
    }
    None
}

/// Whether every character of `s` is an ASCII digit.
pub open spec fn all_digits(s: Seq<char>) -> bool {
    forall|i: int| 0 <= i < s.len() ==> '0' <= #[trigger] s[i] <= '9'
}

/// The number that the decimal digits `s` write.
pub open spec fn digits_value(s: Seq<char>) -> nat
    decreases s.len(),
{
    if s.len() == 0 {
        0
    } else {
        digits_value(s.drop_last()) * 10 + ((s.last() as u32) - ('0' as u32)) as nat
    }
}

/// The publication time that `git show -s --format=%ct` prints (trimmed):
/// decimal digits only, up to the latest time a block can carry.
pub open spec fn commit_time_of(s: Seq<char>) -> Option<int> {
    if s.len() > 0 && all_digits(s) && digits_value(s) <= MAX_TIMESTAMP {
        Some(digits_value(s) as int)
    } else {
        None
    }
}

proof fn lemma_digits_value_grows(s: Seq<char>, i: int)
    requires
        0 <= i <= s.len(),
        all_digits(s),
    ensures
        digits_value(s.take(i)) <= digits_value(s),
    decreases s.len() - i,
{
    if i < s.len() {
        assert(s.drop_last().take(i) =~= s.take(i));
        assert(all_digits(s.drop_last()));
        lemma_digits_value_grows(s.drop_last(), i);
    } else {
        assert(s.take(i) =~= s);
    }
}

/// Reads a commit's publication time from the trimmed output of the
/// version-control tool.
pub fn parse_commit_time(text: &str) -> (r: Option<i64>)
    ensures
        match r {
            Some(t) => commit_time_of(text@) == Some(t as int),
            None => commit_time_of(text@) is None,
        },
{
    let cs = chars_of(text);
    if cs.len() == 0 {
        return None;
    }
    let mut value: u64 = 0;
    assert(cs@.take(0) =~= Seq::<char>::empty());
    for i in 0..cs.len()
        invariant
            cs@ == text@,
            all_digits(cs@.take(i as int)),
            value == digits_value(cs@.take(i as int)),
            value <= MAX_TIMESTAMP,
    {
        let c = cs[i];
        assert(cs@.take(i + 1).drop_last() =~= cs@.take(i as int));
        if !('0' <= c && c <= '9') {
            assert(!all_digits(cs@));
            return None;
        }
        let d = (c as u32 - '0' as u32) as u64;
        value = value * 10 + d;
        if value > MAX_TIMESTAMP as u64 {
            proof {
                if all_digits(cs@) {
                    lemma_digits_value_grows(cs@, i + 1);
                }
            }
            return None;
        }
    }
    assert(cs@.take(cs.len() as int) =~= cs@);
    Some(value as i64)
}

} // verus!
