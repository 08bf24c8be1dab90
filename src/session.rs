//! One guessing session: a secret drawn once, then a verdict on each line
//! read until a guess hits the secret.
use crate::guess::{guess_of, read_guess, ParseFailure};
use rand::Rng;
use std::cmp::Ordering;
use vstd::prelude::*;

verus! {

/// The smallest value a secret can take.
pub const LOWEST_SECRET: u32 = 1;

/// The largest value a secret can take.
pub const HIGHEST_SECRET: u32 = 100;

pub open spec fn in_secret_range(v: int) -> bool {
    LOWEST_SECRET <= v <= HIGHEST_SECRET
}

/// The value a session is built around, always within
/// `LOWEST_SECRET..=HIGHEST_SECRET`.
pub struct Secret {
    value: u32,
}

impl View for Secret {
    type V = u32;

    closed spec fn view(&self) -> u32 {
        self.value
    }
}

impl Secret {
    #[verifier::type_invariant]
    spec fn inv(&self) -> bool {
        in_secret_range(self.value as int)
    }

    /// The secret `value`, or `None` where it lies outside the range.
    pub fn new(value: u32) -> (r: Option<Secret>)
        ensures
            r is Some <==> in_secret_range(value as int),
            r matches Some(s) ==> s@ == value,
    {
        if LOWEST_SECRET <= value && value <= HIGHEST_SECRET {
            Some(Secret { value })
        } else {
            None
        }
    }

    pub fn value(&self) -> (r: u32)
        ensures
            r == self@,
            in_secret_range(r as int),
    {
        proof {
            use_type_invariant(self);
        }
        self.value
    }
}

/// Relies on rand's `thread_rng` and `Rng::gen_range`: for `low < high`,
/// `gen_range(low, high)` returns a value drawn uniformly from `[low, high)`
/// (it panics when `low >= high`). `thread_rng` panics only if the
/// operating system's entropy source cannot seed it.
#[verifier::external_body]
fn draw_in_range(low: u32, high: u32) -> (r: u32)
    requires
        low < high,
    ensures
        low <= r < high,
{
    rand::thread_rng().gen_range(low, high)
}

/// Draws the secret of a new session, uniformly from
/// `LOWEST_SECRET..=HIGHEST_SECRET`.
pub fn start_session() -> (r: Secret)
    ensures
        in_secret_range(r@ as int),
{
    let value = draw_in_range(LOWEST_SECRET, HIGHEST_SECRET + 1);
    Secret { value }
}

/// The order of `guess` against `secret`, as integers.
pub open spec fn order_of(guess: int, secret: int) -> Ordering {
    if guess < secret {
        Ordering::Less
    } else if guess > secret {
        Ordering::Greater
    } else {
        Ordering::Equal
    }
}

/// Compares a guess with the secret: `Less` where the guess is below it,
/// `Greater` where above, `Equal` where it hits.
pub fn compare(guess: u32, secret: u32) -> (r: Ordering)
    ensures
        r == order_of(guess as int, secret as int),
        (r == Ordering::Less) <==> guess < secret,
        (r == Ordering::Greater) <==> guess > secret,
        (r == Ordering::Equal) <==> guess == secret,
{
    if guess < secret {
        Ordering::Less
    } else if guess > secret {
        Ordering::Greater
    } else {
        Ordering::Equal
    }
}

#[derive(Debug, Clone, Copy, PartialEq, Eq, Structural)]
pub enum SessionState {
    /// Waiting for the next line of input.
    AwaitingInput,
    /// A guess hit the secret; nothing more is read.
    Terminated,
}

/// What a session is: its secret, its state, and how many lines held a
/// guess so far (held at `u64::MAX` once it gets there).
pub ghost struct SessionView {
    pub secret: u32,
    pub state: SessionState,
    pub valid_guesses: u64,
}

/// One more valid guess, held at `u64::MAX`.
pub open spec fn count_one_more(n: u64) -> u64 {
    if n < u64::MAX {
        (n + 1) as u64
    } else {
        n
    }
}

/// What one line does to a session that awaits input, and the verdict it
/// gets: a line without a guess changes nothing; a guess is counted and
/// compared with the secret, and a hit ends the session.
pub open spec fn step(v: SessionView, line: Seq<char>) -> (SessionView, Result<
    Ordering,
    ParseFailure,
>) {
    match guess_of(line) {
        Err(e) => (v, Err(e)),
        Ok(g) => {
            let o = order_of(g as int, v.secret as int);
            (
                SessionView {
                    secret: v.secret,
                    state: if o == Ordering::Equal {
                        SessionState::Terminated
                    } else {
                        SessionState::AwaitingInput
                    },
                    valid_guesses: count_one_more(v.valid_guesses),
                },
                Ok(o),
            )
        },
    }
}

/// The session after it is handed `lines` in turn; once it has ended, the
/// lines left are not read.
pub open spec fn run(v: SessionView, lines: Seq<Seq<char>>) -> SessionView
    decreases lines.len(),
{
    if lines.len() == 0 || v.state == SessionState::Terminated {
        v
    } else {
        run(step(v, lines[0]).0, lines.drop_first())
    }
}

/// A line that holds no guess is answered with `ParseFailure` and leaves
/// the session exactly as it was: same secret, same count of guesses, and a
/// session that awaited input still awaits it.
pub proof fn lemma_unparsable_line_keeps_session(v: SessionView, line: Seq<char>)
    requires
        guess_of(line) is Err,
    ensures
        step(v, line) == (v, Err::<Ordering, ParseFailure>(ParseFailure)),
{
}

/// Any number of lines that hold no guess never change the secret and
/// never bring the session closer to its end: after them it is as before.
pub proof fn lemma_unparsable_lines_keep_session(v: SessionView, lines: Seq<Seq<char>>)
    requires
        forall|i: int| 0 <= i < lines.len() ==> guess_of(#[trigger] lines[i]) is Err,
    ensures
        run(v, lines) == v,
    decreases lines.len(),
{
    if lines.len() > 0 && v.state != SessionState::Terminated {
        let rest = lines.drop_first();
        assert(guess_of(lines[0]) is Err);
        assert forall|i: int| 0 <= i < rest.len() implies guess_of(#[trigger] rest[i]) is Err by {
            assert(rest[i] == lines[i + 1]);
        }
        lemma_unparsable_lines_keep_session(v, rest);
    }
}

/// A guess ends the session exactly when it equals the secret, and every
/// guess is counted.
pub proof fn lemma_only_a_hit_ends(v: SessionView, line: Seq<char>)
    requires
        guess_of(line) is Ok,
    ensures
        step(v, line).0.secret == v.secret,
        step(v, line).0.valid_guesses == count_one_more(v.valid_guesses),
        (step(v, line).0.state == SessionState::Terminated) <==> guess_of(line)->Ok_0 == v.secret,
        (step(v, line).1 == Ok::<Ordering, ParseFailure>(Ordering::Equal)) <==> guess_of(line)->Ok_0
            == v.secret,
{
}

/// A guessing session around one secret.
pub struct Session {
    secret: Secret,
    state: SessionState,
    valid_guesses: u64,
}

impl View for Session {
    type V = SessionView;

    closed spec fn view(&self) -> SessionView {
        SessionView {
            secret: self.secret@,
            state: self.state,
            valid_guesses: self.valid_guesses,
        }
    }
}

impl Session {
    /// A session around `secret` that awaits its first line.
    pub fn new(secret: Secret) -> (r: Session)
        ensures
            r@ == (SessionView {
                secret: secret@,
                state: SessionState::AwaitingInput,
                valid_guesses: 0,
            }),
    {
        Session { secret, state: SessionState::AwaitingInput, valid_guesses: 0 }
    }

    /// Hands the session one line of input. A line that holds no guess is a
    /// `ParseFailure` and leaves the session as it was; a guess is counted,
    /// and the verdict says how it orders against the secret. `Equal` ends
    /// the session.
    pub fn submit(&mut self, line: &str) -> (r: Result<Ordering, ParseFailure>)
        requires
            old(self)@.state == SessionState::AwaitingInput,
        ensures
            (final(self)@, r) == step(old(self)@, line@),
    {
        match read_guess(line) {
            Err(e) => Err(e),
            Ok(g) => {
                let o = compare(g, self.secret.value());
                if let Ordering::Equal = o {
                    self.state = SessionState::Terminated;
                }
                if self.valid_guesses < u64::MAX {
                    self.valid_guesses = self.valid_guesses + 1;
                }
                Ok(o)
            },
        }
    }

    pub fn state(&self) -> (r: SessionState)
        ensures
            r == self@.state,
    {
        self.state
    }

    pub fn is_terminated(&self) -> (r: bool)
        ensures
            r <==> self@.state == SessionState::Terminated,
    {
        self.state == SessionState::Terminated
    }

    pub fn valid_guesses(&self) -> (r: u64)
        ensures
            r == self@.valid_guesses,
    {
        self.valid_guesses
    }

    pub fn secret(&self) -> (r: &Secret)
        ensures
            r@ == self@.secret,
    {
        &self.secret
    }
}

} // verus!
