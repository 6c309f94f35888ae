//! The physical-presence challenge that guards a firmware update.
use vstd::prelude::*;

use crate::key::Key;
use crate::status::Status;

verus! {

/// Number of digits of a challenge code.
pub const CODE_LEN: usize = 8;

/// Two ASCII digits for a random byte: the byte modulo 100, zero-padded.
pub open spec fn digits_of(b: u8) -> Seq<u8> {
    let v = b % 100;
    seq![(48 + v / 10) as u8, (48 + v % 10) as u8]
}

/// The code to retype for four random bytes.
pub open spec fn code_of(r: Seq<u8>) -> Seq<u8> {
    digits_of(r[0]) + digits_of(r[1]) + digits_of(r[2]) + digits_of(r[3])
}

/// Whether a character is an ASCII digit.
pub open spec fn is_digit(c: char) -> bool {
    48 <= c as u32 <= 57
}

/// How a key press leaves the challenge.
#[derive(Clone, Copy, Debug, PartialEq, Eq, Structural)]
pub enum Verdict {
    /// Still waiting for the user.
    Pending,
    /// The code was retyped exactly and Confirm chosen.
    Confirmed,
    /// Cancel was chosen.
    Cancelled,
}

/// What a [`Challenge`] holds, as plain values.
pub struct ChallengeView {
    pub code: Seq<u8>,
    pub input: Seq<u8>,
    /// 0 for Confirm, 1 for Cancel.
    pub button: nat,
}

impl ChallengeView {
    pub open spec fn wf(self) -> bool {
        &&& self.code.len() == CODE_LEN
        &&& self.input.len() <= self.code.len()
        &&& self.button < 2
    }
}

/// The effect of one key on the challenge.
pub open spec fn challenge_step(s: ChallengeView, k: Key) -> (ChallengeView, Verdict) {
    match k {
        Key::Backspace => (ChallengeView {
            input: if s.input.len() > 0 { s.input.drop_last() } else { s.input },
            ..s
        }, Verdict::Pending),
        Key::Character(c) => (if is_digit(c) && s.input.len() < s.code.len() {
            ChallengeView { input: s.input.push(c as u32 as u8), ..s }
        } else {
            s
        }, Verdict::Pending),
        Key::Enter => if s.button == 0 {
            if s.input == s.code {
                (s, Verdict::Confirmed)
            } else {
                (ChallengeView { input: Seq::empty(), ..s }, Verdict::Pending)
            }
        } else {
            (s, Verdict::Cancelled)
        },
        Key::Escape => (ChallengeView { input: Seq::empty(), ..s }, Verdict::Pending),
        Key::Down => (ChallengeView { button: if s.button + 1 < 2 { s.button + 1 } else { s.button }, ..s }, Verdict::Pending),
        Key::Up => (ChallengeView { button: if s.button > 0 { (s.button - 1) as nat } else { 0 }, ..s }, Verdict::Pending),
        _ => (s, Verdict::Pending),
    }
}

/// A random code the user must retype, the digits typed so far, and the
/// highlighted action.
pub struct Challenge {
    code: Vec<u8>,
    input: Vec<u8>,
    button: usize,
}

impl View for Challenge {
    type V = ChallengeView;

    closed spec fn view(&self) -> ChallengeView {
        ChallengeView { code: self.code@, input: self.input@, button: self.button as nat }
    }
}

fn push_digits(out: &mut Vec<u8>, b: u8)
    ensures
        final(out)@ == old(out)@ + digits_of(b),
{
    let v = b % 100;
    out.push(48 + v / 10);
    out.push(48 + v % 10);
    assert(final(out)@ =~= old(out)@ + digits_of(b));
}

impl Challenge {
    /// A challenge for four bytes from the random source; without them there
    /// is no challenge, and the failure is handed on.
    pub fn new(random: Result<[u8; 4], Status>) -> (r: Result<Challenge, Status>)
        ensures
            random is Err ==> r == Err::<Challenge, Status>(random->Err_0),
            random is Ok ==> (r matches Ok(c) && c@.wf() && c@.code == code_of(random->Ok_0@)
                && c@.input.len() == 0 && c@.button == 0),
    {
        let bytes = match random {
            Ok(b) => b,
            Err(e) => return Err(e),
        };
        let mut code: Vec<u8> = Vec::new();
        push_digits(&mut code, bytes[0]);
        push_digits(&mut code, bytes[1]);
        push_digits(&mut code, bytes[2]);
        push_digits(&mut code, bytes[3]);
        assert(code@ =~= code_of(bytes@));
        Ok(Challenge { code, input: Vec::new(), button: 0 })
    }

    /// The code to retype, as ASCII digits.
    pub fn code(&self) -> (r: &Vec<u8>)
        ensures
            r@ == self@.code,
    {
        &self.code
    }

    /// The digits typed so far, as ASCII digits.
    pub fn input(&self) -> (r: &Vec<u8>)
        ensures
            r@ == self@.input,
    {
        &self.input
    }

    /// The highlighted action: 0 for Confirm, 1 for Cancel.
    pub fn button(&self) -> (r: usize)
        ensures
            r == self@.button,
    {
        self.button
    }

    fn codes_equal(&self) -> (r: bool)
        ensures
            r == (self@.input == self@.code),
    {
        if self.input.len() != self.code.len() {
            return false;
        }
        let mut k: usize = 0;
        while k < self.code.len()
            invariant
                self.input@.len() == self.code@.len(),
                k <= self.code@.len(),
                forall|t: int| 0 <= t < k ==> self.input@[t] == self.code@[t],
            decreases self.code@.len() - k,
        {
            if self.input[k] != self.code[k] {
                return false;
            }
            k = k + 1;
        }
        assert(self.input@ =~= self.code@);
        true
    }

    /// Applies one key press.
    pub fn handle(&mut self, k: Key) -> (r: Verdict)
        requires
            old(self)@.wf(),
        ensures
            final(self)@.wf(),
            (final(self)@, r) == challenge_step(old(self)@, k),
    {
        match k {
            Key::Backspace => {
                if self.input.len() > 0 {
                    self.input.pop();
                }
                Verdict::Pending
            },
            Key::Character(c) => {
                if '0' <= c && c <= '9' && self.input.len() < self.code.len() {
                    self.input.push(c as u32 as u8);
                }
                Verdict::Pending
            },
            Key::Enter => {
                if self.button == 0 {
                    if self.codes_equal() {
                        Verdict::Confirmed
                    } else {
                        self.input.clear();
                        Verdict::Pending
                    }
                } else {
                    Verdict::Cancelled
                }
            },
            Key::Escape => {
                self.input.clear();
                Verdict::Pending
            },
            Key::Down => {
                if self.button + 1 < 2 {
                    self.button = self.button + 1;
                }
                Verdict::Pending
            },
            Key::Up => {
                if self.button > 0 {
                    self.button = self.button - 1;
                }
                Verdict::Pending
            },
            _ => Verdict::Pending,
        }
    }
}

/// Lock state kept by the embedded controller.
#[derive(Clone, Copy, Debug, PartialEq, Eq, Structural)]
pub enum SecurityState {
    Lock,
    Unlock,
    PrepareLock,
    PrepareUnlock,
}

/// Where a guarded firmware update stands.
#[derive(Clone, Copy, Debug, PartialEq, Eq, Structural)]
pub enum SecurityPhase {
    /// The lock state has not been read yet.
    Idle,
    /// The challenge is on screen.
    Prompting,
    /// The outcome is known.
    Finished,
}

/// What the caller learns while a guarded update proceeds.
#[derive(Clone, Copy, Debug)]
pub enum SecurityEvent {
    /// The lock state as read from the controller, or why it could not be.
    State(Result<SecurityState, Status>),
    /// How the challenge ended: `Ok` once confirmed, else the failure.
    Prompt(Result<(), Status>),
}

/// What the caller must do next.
#[derive(Clone, Copy, Debug, PartialEq, Eq, Structural)]
pub enum SecurityAction {
    /// Return this answer to whoever asked.
    Return(bool),
    /// Show the challenge.
    ShowPrompt,
    /// Arm the lock for the next boot, then shut down.
    LockAndShutdown,
    /// Nothing: the event does not belong to this phase.
    Nothing,
}

/// The decisions of a guarded update: an already locked system, or one whose
/// controller cannot be read, needs no challenge; a failed challenge arms the
/// lock and shuts down.
pub open spec fn security_step(p: SecurityPhase, ev: SecurityEvent) -> (SecurityPhase, SecurityAction) {
    match (p, ev) {
        (SecurityPhase::Idle, SecurityEvent::State(st)) => match st {
            Ok(SecurityState::Lock) | Err(_) => (SecurityPhase::Finished, SecurityAction::Return(false)),
            Ok(_) => (SecurityPhase::Prompting, SecurityAction::ShowPrompt),
        },
        (SecurityPhase::Prompting, SecurityEvent::Prompt(res)) => match res {
            Ok(()) => (SecurityPhase::Finished, SecurityAction::Return(true)),
            Err(_) => (SecurityPhase::Finished, SecurityAction::LockAndShutdown),
        },
        _ => (p, SecurityAction::Nothing),
    }
}

/// Applies one event to a guarded update.
pub fn security_next(p: SecurityPhase, ev: SecurityEvent) -> (r: (SecurityPhase, SecurityAction))
    ensures
        r == security_step(p, ev),
{
    match (p, ev) {
        (SecurityPhase::Idle, SecurityEvent::State(st)) => match st {
            Ok(SecurityState::Lock) | Err(_) => (SecurityPhase::Finished, SecurityAction::Return(false)),
            Ok(_) => (SecurityPhase::Prompting, SecurityAction::ShowPrompt),
        },
        (SecurityPhase::Prompting, SecurityEvent::Prompt(res)) => match res {
            Ok(()) => (SecurityPhase::Finished, SecurityAction::Return(true)),
            Err(_) => (SecurityPhase::Finished, SecurityAction::LockAndShutdown),
        },
        _ => (p, SecurityAction::Nothing),
    }
}

/// The outcome of a finished challenge.
pub fn challenge_result(v: Verdict) -> (r: Option<Result<(), Status>>)
    ensures
        v == Verdict::Pending ==> r is None,
        v == Verdict::Confirmed ==> r == Some(Ok::<(), Status>(())),
        v == Verdict::Cancelled ==> r == Some(Err::<(), Status>(Status::Aborted)),
{
    match v {
        Verdict::Pending => None,
        Verdict::Confirmed => Some(Ok(())),
        Verdict::Cancelled => Some(Err(Status::Aborted)),
    }
}

/// A countdown for the embedded controller's polling, in polls.
pub struct UefiTimeout {
    duration: u64,
    elapsed: u64,
}

impl UefiTimeout {
    pub closed spec fn duration(&self) -> nat {
        self.duration as nat
    }

    pub closed spec fn elapsed(&self) -> nat {
        self.elapsed as nat
    }

    pub fn new(duration: u64) -> (r: Self)
        ensures
            r.duration() == duration,
            r.elapsed() == 0,
    {
        UefiTimeout { duration, elapsed: 0 }
    }

    /// Starts the countdown again.
    pub fn reset(&mut self)
        ensures
            final(self).duration() == old(self).duration(),
            final(self).elapsed() == 0,
    {
        self.elapsed = 0;
    }

    /// Counts one poll; whether time is left after it.
    pub fn running(&mut self) -> (r: bool)
        ensures
            final(self).duration() == old(self).duration(),
            final(self).elapsed() == if old(self).elapsed() < u64::MAX { old(self).elapsed() + 1 } else { old(self).elapsed() },
            r == (final(self).elapsed() < final(self).duration()),
    {
        if self.elapsed < u64::MAX {
            self.elapsed = self.elapsed + 1;
        }
        self.elapsed < self.duration
    }
}

} // verus!
