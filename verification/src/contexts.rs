use vstd::prelude::*;

use crate::strutil::first_token;
use crate::strutil::first_token_opt;

verus! {

/// The first tokens of a list of lines, as a set: what the existing
/// `file_contexts` file already covers.
pub open spec fn tokens_of_lines(lines: Seq<Seq<char>>) -> Set<Seq<char>> {
    Set::new(
        |t: Seq<char>|
            exists|i: int| 0 <= i < lines.len() && #[trigger] first_token_opt(lines[i]) == Some(t),
    )
}

/// The set of path patterns the existing `file_contexts` file holds:
/// the first whitespace-delimited token of each of its lines.
/// Membership is exact string equality.
#[derive(Clone)]
pub struct ContextSet {
    entries: Vec<String>,
}

impl View for ContextSet {
    type V = Set<Seq<char>>;

    closed spec fn view(&self) -> Set<Seq<char>> {
        Set::new(
            |t: Seq<char>|
                exists|i: int| 0 <= i < self.entries@.len() && #[trigger] self.entries@[i]@ == t,
        )
    }
}

impl ContextSet {
    /// The empty set: what a missing contexts file yields.
    pub fn new() -> (r: Self)
        ensures
            r@ == Set::<Seq<char>>::empty(),
    {
        let r = ContextSet { entries: Vec::new() };
        proof {
            assert(r@ =~= Set::<Seq<char>>::empty());
        }
        r
    }

    /// Adds one path pattern.
    pub fn insert(&mut self, s: String)
        ensures
            final(self)@ == old(self)@.insert(s@),
    {
        let ghost pre = self.entries@;
        self.entries.push(s);
        proof {
            assert forall|t: Seq<char>| final(self)@.contains(t) implies old(self)@.insert(
                s@,
            ).contains(t) by {
                let i = choose|i: int|
                    0 <= i < self.entries@.len() && #[trigger] self.entries@[i]@ == t;
                if i < pre.len() {
                    assert(pre[i]@ == t);
                }
            }
            assert forall|t: Seq<char>| old(self)@.insert(s@).contains(t) implies final(self)@.contains(t) by {
                if old(self)@.contains(t) {
                    let i = choose|i: int| 0 <= i < pre.len() && #[trigger] pre[i]@ == t;
                    assert(self.entries@[i]@ == t);
                } else {
                    assert(self.entries@[pre.len() as int]@ == t);
                }
            }
            assert(final(self)@ =~= old(self)@.insert(s@));
        }
    }

    /// Exact membership test.
    pub fn contains(&self, key: &String) -> (r: bool)
        ensures
            r == self@.contains(key@),
    {
        let mut i: usize = 0;
        while i < self.entries.len()
            invariant
                i <= self.entries@.len(),
                forall|k: int| 0 <= k < i ==> #[trigger] self.entries@[k]@ != key@,
            decreases self.entries@.len() - i,
        {
            if self.entries[i] == *key {
                return true;
            }
            i += 1;
        }
        false
    }

    /// Builds the set from the lines of a contexts file: each line
    /// contributes its first whitespace-delimited token; blank or
    /// all-whitespace lines contribute nothing.
    pub fn from_lines(lines: &Vec<String>) -> (r: Self)
        ensures
            r@ == tokens_of_lines(lines.deep_view()),
    {
        let ghost all = lines.deep_view();
        let mut r = ContextSet::new();
        let mut i: usize = 0;
        while i < lines.len()
            invariant
                i <= all.len(),
                all == lines.deep_view(),
                all.len() == lines@.len(),
                forall|k: int| 0 <= k < all.len() ==> all[k] == lines@[k]@,
                r@ == tokens_of_lines(all.take(i as int)),
            decreases all.len() - i,
        {
            let ghost pre = all.take(i as int);
            let ghost post = all.take(i + 1);
            proof {
                assert(forall|k: int| 0 <= k < i ==> post[k] == pre[k]);
                assert(post[i as int] == all[i as int]);
            }
            match first_token(&lines[i]) {
                Some(t) => {
                    proof {
                        assert(first_token_opt(all[i as int]) == Some(t@));
                    }
                    r.insert(t);
                    proof {
                        assert forall|u: Seq<char>| tokens_of_lines(post).contains(u) implies
                            r@.contains(u) by {
                            let k = choose|k: int|
                                0 <= k < post.len() && #[trigger] first_token_opt(post[k]) == Some(
                                    u,
                                );
                            if k < i {
                                assert(first_token_opt(pre[k]) == Some(u));
                                assert(tokens_of_lines(pre).contains(u));
                            }
                        }
                        assert forall|u: Seq<char>| r@.contains(u) implies tokens_of_lines(
                            post,
                        ).contains(u) by {
                            if tokens_of_lines(pre).contains(u) {
                                let k = choose|k: int|
                                    0 <= k < pre.len() && #[trigger] first_token_opt(pre[k])
                                        == Some(u);
                                assert(first_token_opt(post[k]) == Some(u));
                            } else {
                                assert(first_token_opt(post[i as int]) == Some(u));
                            }
                        }
                        assert(r@ =~= tokens_of_lines(post));
                    }
                },
                None => {
                    proof {
                        assert(first_token_opt(all[i as int]) is None);
                        assert forall|u: Seq<char>| tokens_of_lines(post).contains(u) implies
                            tokens_of_lines(pre).contains(u) by {
                            let k = choose|k: int|
                                0 <= k < post.len() && #[trigger] first_token_opt(post[k]) == Some(
                                    u,
                                );
                            assert(k < i);
                            assert(first_token_opt(pre[k]) == Some(u));
                        }
                        assert forall|u: Seq<char>| tokens_of_lines(pre).contains(u) implies
                            tokens_of_lines(post).contains(u) by {
                            let k = choose|k: int|
                                0 <= k < pre.len() && #[trigger] first_token_opt(pre[k]) == Some(
                                    u,
                                );
                            assert(first_token_opt(post[k]) == Some(u));
                        }
                        assert(r@ =~= tokens_of_lines(post));
                    }
                },
            }
            i += 1;
        }
        proof {
            assert(all.take(all.len() as int) =~= all);
        }
        r
    }
}


/// The keys of an extended contexts file: appending lines to a file
/// adds exactly their tokens to its key set.
pub proof fn lemma_tokens_of_lines_concat(a: Seq<Seq<char>>, b: Seq<Seq<char>>)
    ensures
        tokens_of_lines(a + b) == tokens_of_lines(a).union(tokens_of_lines(b)),
{
    assert forall|t: Seq<char>| tokens_of_lines(a + b).contains(t) implies tokens_of_lines(
        a,
    ).union(tokens_of_lines(b)).contains(t) by {
        let i = choose|i: int|
            0 <= i < (a + b).len() && #[trigger] first_token_opt((a + b)[i]) == Some(t);
        if i < a.len() {
            assert(first_token_opt(a[i]) == Some(t));
        } else {
            assert(first_token_opt(b[i - a.len()]) == Some(t));
        }
    }
    assert forall|t: Seq<char>|
        tokens_of_lines(a).union(tokens_of_lines(b)).contains(t) implies tokens_of_lines(
        a + b,
    ).contains(t) by {
        if tokens_of_lines(a).contains(t) {
            let i = choose|i: int|
                0 <= i < a.len() && #[trigger] first_token_opt(a[i]) == Some(t);
            assert(first_token_opt((a + b)[i]) == Some(t));
        } else {
            let i = choose|i: int|
                0 <= i < b.len() && #[trigger] first_token_opt(b[i]) == Some(t);
            assert(first_token_opt((a + b)[a.len() + i]) == Some(t));
        }
    }
    assert(tokens_of_lines(a + b) =~= tokens_of_lines(a).union(tokens_of_lines(b)));
}

} // verus!
