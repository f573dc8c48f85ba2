use vstd::prelude::*;
use vstd::string::StrSliceExecFns;

use crate::strutil::chars_to_string;
use crate::strutil::is_ws;
use crate::strutil::no_ws;

verus! {

/// The regex metacharacters that `file_contexts` patterns treat
/// specially and that escaping must neutralise.
pub open spec fn is_metachar(c: char) -> bool {
    c == '[' || c == ']' || c == '.' || c == '^' || c == '$' || c == '*' || c == '+' || c == '?'
        || c == '{' || c == '}' || c == '|' || c == '(' || c == ')'
}

pub fn is_metachar_exec(c: char) -> (r: bool)
    ensures
        r == is_metachar(c),
{
    c == '[' || c == ']' || c == '.' || c == '^' || c == '$' || c == '*' || c == '+' || c == '?'
        || c == '{' || c == '}' || c == '|' || c == '(' || c == ')'
}

/// How one character is escaped: a metacharacter gains a leading
/// backslash, any other character passes through unchanged.
pub open spec fn escape_char(c: char) -> Seq<char> {
    if is_metachar(c) {
        seq!['\\', c]
    } else {
        seq![c]
    }
}

/// The escaping of a whole path, character by character.
pub open spec fn escape_spec(s: Seq<char>) -> Seq<char>
    decreases s.len(),
{
    if s.len() == 0 {
        Seq::empty()
    } else {
        escape_spec(s.drop_last()) + escape_char(s.last())
    }
}

/// Escapes every regex metacharacter of `s` with a backslash; all
/// other characters, existing backslashes included, pass through
/// unchanged. The empty string stays empty.
pub fn escape_regex(s: &str) -> (r: String)
    ensures
        r@ == escape_spec(s@),
{
    let len = s.unicode_len();
    let mut out: Vec<char> = Vec::new();
    let mut i: usize = 0;
    while i < len
        invariant
            i <= len,
            len == s@.len(),
            out@ == escape_spec(s@.take(i as int)),
        decreases len - i,
    {
        let c = s.get_char(i);
        if is_metachar_exec(c) {
            out.push('\\');
        }
        out.push(c);
        proof {
            let pre = s@.take(i + 1);
            assert(pre.drop_last() =~= s@.take(i as int));
            assert(pre.last() == s@[i as int]);
            assert(out@ =~= escape_spec(s@.take(i as int)) + escape_char(s@[i as int]));
        }
        i += 1;
    }
    proof {
        assert(s@.take(len as int) =~= s@);
    }
    chars_to_string(&out)
}

/// Every metacharacter of an escaped path is preceded by a backslash:
/// escaping leaves no unescaped metacharacter behind.
pub proof fn lemma_escape_no_unescaped_metachar(s: Seq<char>, i: int)
    requires
        0 <= i < escape_spec(s).len(),
        is_metachar(escape_spec(s)[i]),
    ensures
        i > 0 && escape_spec(s)[i - 1] == '\\',
    decreases s.len(),
{
    if s.len() > 0 {
        let pre = escape_spec(s.drop_last());
        let blk = escape_char(s.last());
        if i < pre.len() {
            lemma_escape_no_unescaped_metachar(s.drop_last(), i);
            if i > 0 {
                assert(escape_spec(s)[i - 1] == pre[i - 1]);
            }
        } else {
            if is_metachar(s.last()) {
                assert(blk == seq!['\\', s.last()]);
                assert(escape_spec(s)[i] == blk[i - pre.len()]);
                assert(i == pre.len() + 1);
                assert(escape_spec(s)[i - 1] == blk[0]);
            } else {
                assert(escape_spec(s)[i] == s.last());
            }
        }
    }
}

/// On an input already free of metacharacters, escaping is the
/// identity, so it is idempotent on its own output range there.
pub proof fn lemma_escape_clean_identity(s: Seq<char>)
    requires
        forall|i: int| 0 <= i < s.len() ==> !is_metachar(s[i]),
    ensures
        escape_spec(s) == s,
    decreases s.len(),
{
    if s.len() == 0 {
        assert(escape_spec(s) =~= s);
    } else {
        assert(!is_metachar(s.last()));
        lemma_escape_clean_identity(s.drop_last());
        assert(escape_spec(s) =~= s);
    }
}

/// Escaping introduces no whitespace: the backslash is not
/// whitespace, and every other output character comes from the input.
pub proof fn lemma_escape_no_ws(s: Seq<char>)
    requires
        no_ws(s),
    ensures
        no_ws(escape_spec(s)),
    decreases s.len(),
{
    if s.len() > 0 {
        assert(!is_ws(s.last()));
        assert(no_ws(s.drop_last())) by {
            assert(forall|i: int|
                0 <= i < s.drop_last().len() ==> s.drop_last()[i] == s[i]);
        }
        lemma_escape_no_ws(s.drop_last());
        let pre = escape_spec(s.drop_last());
        let whole = escape_spec(s);
        assert(!is_ws('\\'));
        assert forall|i: int| 0 <= i < whole.len() implies !is_ws(whole[i]) by {
            if i < pre.len() {
                assert(whole[i] == pre[i]);
            } else {
                assert(whole[i] == escape_char(s.last())[i - pre.len()]);
            }
        }
    }
}

/// Escaping of the empty path yields the empty path.
pub proof fn lemma_escape_empty()
    ensures
        escape_spec(Seq::<char>::empty()) == Seq::<char>::empty(),
{
    assert(escape_spec(Seq::<char>::empty()) =~= Seq::<char>::empty());
}

} // verus!
