use vstd::prelude::*;
use vstd::string::StrSliceExecFns;
use vstd::string::StringExecFns;

verus! {

/// The whitespace characters, exactly as Rust's `char::is_whitespace`
/// (Unicode `White_Space`) defines them.
pub open spec fn is_ws(c: char) -> bool {
    c == ' ' || c == '\t' || c == '\n' || c == '\u{0B}' || c == '\u{0C}' || c == '\r'
        || c == '\u{85}' || c == '\u{A0}' || c == '\u{1680}'
        || (0x2000 <= c as u32 && c as u32 <= 0x200A)
        || c == '\u{2028}' || c == '\u{2029}' || c == '\u{202F}' || c == '\u{205F}'
        || c == '\u{3000}'
}

pub fn is_ws_char(c: char) -> (r: bool)
    ensures
        r == is_ws(c),
{
    c == ' ' || c == '\t' || c == '\n' || c == '\u{0B}' || c == '\u{0C}' || c == '\r'
        || c == '\u{85}' || c == '\u{A0}' || c == '\u{1680}'
        || (0x2000 <= c as u32 && c as u32 <= 0x200A)
        || c == '\u{2028}' || c == '\u{2029}' || c == '\u{202F}' || c == '\u{205F}'
        || c == '\u{3000}'
}

/// A sequence of characters none of which is whitespace.
pub open spec fn no_ws(s: Seq<char>) -> bool {
    forall|i: int| 0 <= i < s.len() ==> !is_ws(s[i])
}

/// Concatenation keeps freedom from whitespace.
pub proof fn lemma_no_ws_concat(a: Seq<char>, b: Seq<char>)
    requires
        no_ws(a),
        no_ws(b),
    ensures
        no_ws(a + b),
{
    assert forall|i: int| 0 <= i < (a + b).len() implies !is_ws((a + b)[i]) by {
        if i < a.len() {
            assert((a + b)[i] == a[i]);
        } else {
            assert((a + b)[i] == b[i - a.len()]);
        }
    }
}

/// Collects a vector of characters into a `String` holding exactly
/// those characters.
///
/// Relies on `core::iter::Iterator::collect` building a `String` from
/// its characters in order (via `String`'s `FromIterator<char>`).
#[verifier::external_body]
pub fn chars_to_string(v: &Vec<char>) -> (r: String)
    ensures
        r@ == v@,
{
    v.iter().collect()
}

/// `needle` occurs as a contiguous subsequence of `hay`.
pub open spec fn contains_seq(hay: Seq<char>, needle: Seq<char>) -> bool {
    exists|i: int|
        0 <= i && i + needle.len() <= hay.len() && #[trigger] hay.subrange(i, i + needle.len())
            == needle
}

/// Substring search: does `hay` contain `needle`?
pub fn contains_sub(hay: &str, needle: &str) -> (r: bool)
    ensures
        r == contains_seq(hay@, needle@),
{
    let hl = hay.unicode_len();
    let nl = needle.unicode_len();
    if nl > hl {
        return false;
    }
    let mut i: usize = 0;
    while i <= hl - nl
        invariant
            nl <= hl,
            i <= hl,
            hl == hay@.len(),
            nl == needle@.len(),
            forall|k: int| 0 <= k < i ==> #[trigger] hay@.subrange(k, k + needle@.len()) != needle@,
        decreases hl - i,
    {
        let mut j: usize = 0;
        let mut same = true;
        while j < nl
            invariant
                i + nl <= hl,
                j <= nl,
                hl == hay@.len(),
                nl == needle@.len(),
                same == (forall|t: int| 0 <= t < j ==> hay@[i + t] == needle@[t]),
            decreases nl - j,
        {
            if hay.get_char(i + j) != needle.get_char(j) {
                same = false;
            }
            j += 1;
        }
        if same {
            proof {
                assert(hay@.subrange(i as int, i + needle@.len()) =~= needle@);
            }
            return true;
        }
        proof {
            let t = choose|t: int| !(0 <= t < nl ==> hay@[i + t] == needle@[t]);
            assert(hay@.subrange(i as int, i + needle@.len())[t] != needle@[t]);
        }
        i += 1;
    }
    proof {
        assert forall|k: int|
            0 <= k && k + needle@.len() <= hay@.len() implies #[trigger] hay@.subrange(
            k,
            k + needle@.len(),
        ) != needle@ by {
            assert(k < i);
        }
    }
    false
}

/// The length of `s` once trailing whitespace is dropped.
pub open spec fn trimmed_len(s: Seq<char>) -> nat
    decreases s.len(),
{
    if s.len() > 0 && is_ws(s.last()) {
        trimmed_len(s.drop_last())
    } else {
        s.len()
    }
}

/// `s` with its trailing whitespace dropped.
pub open spec fn trim_end_spec(s: Seq<char>) -> Seq<char> {
    s.take(trimmed_len(s) as int)
}

pub proof fn lemma_trimmed_len_le(s: Seq<char>)
    ensures
        trimmed_len(s) <= s.len(),
    decreases s.len(),
{
    if s.len() > 0 && is_ws(s.last()) {
        lemma_trimmed_len_le(s.drop_last());
    }
}

/// A sequence without whitespace is its own trimming.
pub proof fn lemma_no_ws_trim(s: Seq<char>)
    requires
        no_ws(s),
    ensures
        trim_end_spec(s) == s,
{
    if s.len() > 0 {
        assert(!is_ws(s.last()));
    }
    assert(trim_end_spec(s) =~= s);
}

/// Drops trailing whitespace from a string.
pub fn trim_end_str(s: &str) -> (r: String)
    ensures
        r@ == trim_end_spec(s@),
{
    let len = s.unicode_len();
    let mut cut: usize = len;
    proof {
        assert(s@.take(len as int) =~= s@);
    }
    while cut > 0 && is_ws_char(s.get_char(cut - 1))
        invariant
            cut <= len,
            len == s@.len(),
            trimmed_len(s@) == trimmed_len(s@.take(cut as int)),
        decreases cut,
    {
        proof {
            let pre = s@.take(cut as int);
            assert(pre.last() == s@[cut - 1]);
            assert(pre.drop_last() =~= s@.take(cut as int - 1));
        }
        cut -= 1;
    }
    proof {
        let pre = s@.take(cut as int);
        if cut == 0 {
            assert(trimmed_len(pre) == 0);
        } else {
            assert(pre.last() == s@[cut - 1]);
            assert(trimmed_len(pre) == cut);
        }
        lemma_trimmed_len_le(s@);
    }
    let r = s.substring_char(0, cut);
    proof {
        assert(r@ =~= trim_end_spec(s@));
    }
    r.to_owned()
}

/// The number of leading whitespace characters of `s`.
pub open spec fn ws_prefix_len(s: Seq<char>) -> nat
    decreases s.len(),
{
    if s.len() > 0 && is_ws(s[0]) {
        1 + ws_prefix_len(s.skip(1))
    } else {
        0
    }
}

/// The length of the leading run of non-whitespace characters of `s`.
pub open spec fn token_len(s: Seq<char>) -> nat
    decreases s.len(),
{
    if s.len() > 0 && !is_ws(s[0]) {
        1 + token_len(s.skip(1))
    } else {
        0
    }
}

pub proof fn lemma_ws_prefix_len(s: Seq<char>, i: int)
    requires
        0 <= i <= s.len(),
        forall|k: int| 0 <= k < i ==> is_ws(s[k]),
        i == s.len() || !is_ws(s[i]),
    ensures
        ws_prefix_len(s) == i,
    decreases i,
{
    if i == 0 {
    } else {
        assert(is_ws(s[0]));
        lemma_ws_prefix_len(s.skip(1), i - 1);
    }
}

pub proof fn lemma_token_len(s: Seq<char>, i: int)
    requires
        0 <= i <= s.len(),
        forall|k: int| 0 <= k < i ==> !is_ws(s[k]),
        i == s.len() || is_ws(s[i]),
    ensures
        token_len(s) == i,
    decreases i,
{
    if i == 0 {
    } else {
        assert(!is_ws(s[0]));
        lemma_token_len(s.skip(1), i - 1);
    }
}

/// The first whitespace-delimited token of `s`, if `s` holds any
/// non-whitespace character.
pub open spec fn first_token_opt(s: Seq<char>) -> Option<Seq<char>> {
    if ws_prefix_len(s) == s.len() {
        None
    } else {
        let a = ws_prefix_len(s) as int;
        Some(s.subrange(a, a + token_len(s.skip(a))))
    }
}

/// The first whitespace-delimited token of `line`: `None` when the
/// line is empty or all whitespace.
pub fn first_token(line: &str) -> (r: Option<String>)
    ensures
        match r {
            Some(t) => first_token_opt(line@) == Some(t@),
            None => first_token_opt(line@) is None,
        },
{
    let len = line.unicode_len();
    let mut a: usize = 0;
    while a < len && is_ws_char(line.get_char(a))
        invariant
            a <= len,
            len == line@.len(),
            forall|k: int| 0 <= k < a ==> is_ws(line@[k]),
        decreases len - a,
    {
        a += 1;
    }
    proof {
        lemma_ws_prefix_len(line@, a as int);
    }
    if a == len {
        return None;
    }
    let mut b: usize = a;
    while b < len && !is_ws_char(line.get_char(b))
        invariant
            a <= b <= len,
            len == line@.len(),
            forall|k: int| a <= k < b ==> !is_ws(line@[k]),
        decreases len - b,
    {
        b += 1;
    }
    proof {
        let rest = line@.skip(a as int);
        assert forall|k: int| 0 <= k < b - a implies !is_ws(rest[k]) by {
            assert(rest[k] == line@[a + k]);
        }
        if b < len {
            assert(rest[b - a] == line@[b as int]);
        }
        lemma_token_len(rest, b - a);
    }
    let t = line.substring_char(a, b);
    proof {
        assert(t@ =~= line@.subrange(
            ws_prefix_len(line@) as int,
            ws_prefix_len(line@) + token_len(line@.skip(ws_prefix_len(line@) as int)) as int,
        ));
    }
    Some(t.to_owned())
}

/// The decimal digit character for `d`.
pub open spec fn digit_char(d: nat) -> char {
    if d == 0 {
        '0'
    } else if d == 1 {
        '1'
    } else if d == 2 {
        '2'
    } else if d == 3 {
        '3'
    } else if d == 4 {
        '4'
    } else if d == 5 {
        '5'
    } else if d == 6 {
        '6'
    } else if d == 7 {
        '7'
    } else if d == 8 {
        '8'
    } else {
        '9'
    }
}

/// The decimal representation of `n`, most significant digit first.
pub open spec fn dec_spec(n: nat) -> Seq<char>
    decreases n,
{
    if n < 10 {
        seq![digit_char(n)]
    } else {
        dec_spec(n / 10).push(digit_char(n % 10))
    }
}

fn digit_of(d: usize) -> (c: char)
    requires
        d < 10,
    ensures
        c == digit_char(d as nat),
{
    if d == 0 {
        '0'
    } else if d == 1 {
        '1'
    } else if d == 2 {
        '2'
    } else if d == 3 {
        '3'
    } else if d == 4 {
        '4'
    } else if d == 5 {
        '5'
    } else if d == 6 {
        '6'
    } else if d == 7 {
        '7'
    } else if d == 8 {
        '8'
    } else {
        '9'
    }
}

/// Appends the decimal representation of `n` to `out`.
pub fn push_dec(n: usize, out: &mut Vec<char>)
    ensures
        final(out)@ == old(out)@ + dec_spec(n as nat),
    decreases n,
{
    if n < 10 {
        out.push(digit_of(n));
    } else {
        push_dec(n / 10, out);
        out.push(digit_of(n % 10));
    }
}

} // verus!
