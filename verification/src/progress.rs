use vstd::prelude::*;
use vstd::arithmetic::div_mod::lemma_div_by_multiple;
use vstd::arithmetic::div_mod::lemma_div_is_ordered;
use vstd::arithmetic::mul::lemma_mul_inequality;

use crate::strutil::chars_to_string;
use crate::strutil::dec_spec;
use crate::strutil::push_dec;

verus! {

/// `n` copies of `c`.
pub open spec fn rep_char(c: char, n: nat) -> Seq<char> {
    Seq::new(n, |i: int| c)
}

/// A number right-aligned to three columns, as `{:3}` formats it.
pub open spec fn pad3_spec(n: nat) -> Seq<char> {
    if n < 10 {
        seq![' ', ' '] + dec_spec(n)
    } else if n < 100 {
        seq![' '] + dec_spec(n)
    } else {
        dec_spec(n)
    }
}

/// The fill of the fifty-column bar: a run of `=` capped by `>` and
/// padded with spaces while unfinished, solid `=` once complete.
pub open spec fn bar_body_spec(percent: nat, filled: nat) -> Seq<char>
    recommends
        filled <= 50,
{
    if percent < 100 {
        (if filled > 0 {
            rep_char('=', (filled - 1) as nat).push('>')
        } else {
            Seq::<char>::empty()
        }) + rep_char(' ', (50 - filled) as nat)
    } else {
        rep_char('=', 50)
    }
}

/// The rendered progress line
/// `\r[<bar>] <percent>% (<progress>/<total>)`.
pub open spec fn progress_bar_spec(progress: nat, total: nat) -> Seq<char>
    recommends
        total > 0,
        progress <= total,
{
    let percent = progress * 100 / total;
    let filled = 50 * progress / total;
    seq!['\r', '['] + bar_body_spec(percent, filled) + seq![']', ' '] + pad3_spec(percent) + seq![
        '%',
        ' ',
        '(',
    ] + dec_spec(progress) + seq!['/'] + dec_spec(total) + seq![')']
}

/// The count a periodic reporter displays: a sampled value that
/// regressed below the last drawn one is ignored in favour of the
/// last known-good value.
pub fn display_count(sampled: usize, last: usize) -> (r: usize)
    ensures
        r == if sampled < last {
            last
        } else {
            sampled
        },
{
    if sampled < last {
        last
    } else {
        sampled
    }
}

/// The shared progress state: how many of `total` paths the workers
/// have handled so far. The counter never passes `total`.
pub struct ProgressTracker {
    pub total: usize,
    pub current: usize,
    pub show_progress: bool,
}

impl ProgressTracker {
    /// A fresh tracker, with nothing counted yet.
    pub fn new(total: usize, show_progress: bool) -> (r: Self)
        ensures
            r.total == total,
            r.current == 0,
            r.show_progress == show_progress,
    {
        ProgressTracker { total, current: 0, show_progress }
    }

    /// Counts one handled path. The counter grows by exactly one and
    /// stays within `total`.
    pub fn increment(&mut self)
        requires
            old(self).current < old(self).total,
        ensures
            final(self).current == old(self).current + 1,
            final(self).total == old(self).total,
            final(self).show_progress == old(self).show_progress,
    {
        self.current = self.current + 1;
    }

    /// The final rendering of the bar, if progress display is on:
    /// the caller prints it and moves to the next line.
    pub fn finish(&self) -> (r: Option<String>)
        requires
            self.show_progress ==> self.total > 0 && self.current <= self.total,
        ensures
            match r {
                Some(b) => self.show_progress && b@ == progress_bar_spec(
                    self.current as nat,
                    self.total as nat,
                ),
                None => !self.show_progress,
            },
    {
        if self.show_progress {
            Some(Self::progress_bar(self.current, self.total))
        } else {
            None
        }
    }

    /// Renders the textual progress bar for `progress` of `total`
    /// handled paths.
    #[verifier::rlimit(60)]
    pub fn progress_bar(progress: usize, total: usize) -> (r: String)
        requires
            total > 0,
            progress <= total,
        ensures
            r@ == progress_bar_spec(progress as nat, total as nat),
    {
        proof {
            lemma_mul_inequality(progress as int, total as int, 100);
            lemma_div_is_ordered(progress as int * 100, total as int * 100, total as int);
            lemma_div_by_multiple(100, total as int);
            lemma_mul_inequality(progress as int, total as int, 50);
            lemma_div_is_ordered(progress as int * 50, total as int * 50, total as int);
            lemma_div_by_multiple(50, total as int);
        }
        let percent: usize = ((progress as u128) * 100 / (total as u128)) as usize;
        let filled: usize = ((progress as u128) * 50 / (total as u128)) as usize;
        proof {
            assert(percent == progress as nat * 100 / total as nat);
            assert(filled == 50 * progress as nat / total as nat);
            assert(percent <= 100);
            assert(filled <= 50);
        }
        let ghost pct = percent as nat;
        let ghost fil = filled as nat;
        let mut out: Vec<char> = Vec::new();
        out.push('\r');
        out.push('[');
        if percent < 100 {
            if filled > 0 {
                let mut k: usize = 0;
                while k < filled - 1
                    invariant
                        filled >= 1,
                        k <= filled - 1,
                        out@ == seq!['\r', '['] + rep_char('=', k as nat),
                    decreases filled - 1 - k,
                {
                    out.push('=');
                    proof {
                        assert(rep_char('=', (k + 1) as nat) =~= rep_char('=', k as nat).push(
                            '=',
                        ));
                    }
                    k += 1;
                }
                out.push('>');
            }
            let stop = 50 - filled;
            let mut k: usize = 0;
            let ghost mid = out@;
            while k < stop
                invariant
                    k <= stop,
                    out@ == mid + rep_char(' ', k as nat),
                decreases stop - k,
            {
                out.push(' ');
                proof {
                    assert(rep_char(' ', (k + 1) as nat) =~= rep_char(' ', k as nat).push(' '));
                }
                k += 1;
            }
            proof {
                assert(out@ =~= seq!['\r', '['] + bar_body_spec(pct, fil));
            }
        } else {
            let mut k: usize = 0;
            while k < 50
                invariant
                    k <= 50,
                    out@ == seq!['\r', '['] + rep_char('=', k as nat),
                decreases 50 - k,
            {
                out.push('=');
                proof {
                    assert(rep_char('=', (k + 1) as nat) =~= rep_char('=', k as nat).push('='));
                }
                k += 1;
            }
            proof {
                assert(out@ =~= seq!['\r', '['] + bar_body_spec(pct, fil));
            }
        }
        out.push(']');
        out.push(' ');
        if percent < 10 {
            out.push(' ');
            out.push(' ');
        } else if percent < 100 {
            out.push(' ');
        }
        push_dec(percent, &mut out);
        proof {
            assert(out@ =~= seq!['\r', '['] + bar_body_spec(pct, fil) + seq![']', ' ']
                + pad3_spec(pct));
        }
        out.push('%');
        out.push(' ');
        out.push('(');
        push_dec(progress, &mut out);
        out.push('/');
        push_dec(total, &mut out);
        out.push(')');
        proof {
            assert(out@ =~= progress_bar_spec(progress as nat, total as nat));
        }
        chars_to_string(&out)
    }
}

} // verus!
