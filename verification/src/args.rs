//! The argument cursor over the host's word list.
//!
//! The host hands a builtin invocation its arguments as a list of words.
//! [`Args`] wraps a copy of that list as plain byte strings and tracks a
//! position that can only move forward: at most one option-parse pass per
//! call, then free-argument iteration.
//!
//! The host's option scanner keeps a process-global scan position. The
//! cursor records a [`HostAction::ResetScanner`] action exactly once per
//! call, on first use, so that a previous call's scan position cannot
//! leak into this one.

use vstd::prelude::*;

use crate::convert::is_utf8;
use crate::convert::validate_utf8;
use crate::convert::Utf8OrParseError;
use crate::errors::Error;
use crate::errors::HostAction;

verus! {

/// Access to the command-line arguments passed to a builtin.
pub struct Args {
    pub(crate) words: Vec<Vec<u8>>,
    pub(crate) pos: usize,
    pub(crate) reset_pending: bool,
    pub(crate) actions: Vec<HostAction>,
}

impl Args {
    /// The whole word list, as byte strings.
    pub closed spec fn words_spec(&self) -> Seq<Seq<u8>> {
        self.words.deep_view()
    }

    /// The cursor position within the word list.
    pub closed spec fn pos_spec(&self) -> int {
        self.pos as int
    }

    /// True if the host scanner's global state has not been reset in
    /// this call yet.
    pub closed spec fn reset_pending_spec(&self) -> bool {
        self.reset_pending
    }

    /// The actions recorded for the host to perform, oldest first.
    pub closed spec fn actions_spec(&self) -> Seq<HostAction> {
        self.actions@
    }

    /// The words not yet consumed.
    pub open spec fn remaining(&self) -> Seq<Seq<u8>> {
        if self.pos_spec() <= self.words_spec().len() {
            self.words_spec().skip(self.pos_spec())
        } else {
            Seq::empty()
        }
    }

    /// Wraps the word list the host passed for this call.
    pub fn new(words: Vec<Vec<u8>>) -> (r: Args)
        ensures
            r.words_spec() == words.deep_view(),
            r.pos_spec() == 0,
            r.reset_pending_spec(),
            r.actions_spec() == Seq::<HostAction>::empty(),
    {
        let r = Args { words, pos: 0, reset_pending: true, actions: Vec::new() };
        proof {
            assert(r.actions@ =~= Seq::<HostAction>::empty());
        }
        r
    }

    /// Returns `true` if there are no more arguments.
    pub fn is_empty(&self) -> (r: bool)
        ensures
            r == (self.remaining().len() == 0),
    {
        self.pos >= self.words.len()
    }

    /// Hands the recorded host actions to the caller, oldest first, and
    /// clears them.
    pub fn drain_actions(&mut self) -> (r: Vec<HostAction>)
        ensures
            r@ == old(self).actions_spec(),
            final(self).actions_spec() == Seq::<HostAction>::empty(),
            final(self).words_spec() == old(self).words_spec(),
            final(self).pos_spec() == old(self).pos_spec(),
            final(self).reset_pending_spec() == old(self).reset_pending_spec(),
    {
        let mut taken: Vec<HostAction> = Vec::new();
        core::mem::swap(&mut taken, &mut self.actions);
        taken
    }

    /// Records one action for the host.
    pub(crate) fn push_action(&mut self, a: HostAction)
        ensures
            final(self).actions_spec() == old(self).actions_spec().push(a),
            final(self).words_spec() == old(self).words_spec(),
            final(self).pos_spec() == old(self).pos_spec(),
            final(self).reset_pending_spec() == old(self).reset_pending_spec(),
    {
        self.actions.push(a);
    }

    /// Moves the cursor forward to word `next`, clamped to the end of
    /// the list; the cursor never rewinds.
    pub(crate) fn advance_to(&mut self, next: usize)
        ensures
            final(self).pos_spec() == if next > old(self).words_spec().len() {
                if old(self).pos_spec() > old(self).words_spec().len() {
                    old(self).pos_spec()
                } else {
                    old(self).words_spec().len() as int
                }
            } else if next as int > old(self).pos_spec() {
                next as int
            } else {
                old(self).pos_spec()
            },
            final(self).words_spec() == old(self).words_spec(),
            final(self).actions_spec() == old(self).actions_spec(),
            final(self).reset_pending_spec() == old(self).reset_pending_spec(),
    {
        let bound = self.words.len();
        let target = if next > bound {
            bound
        } else {
            next
        };
        if target > self.pos {
            self.pos = target;
        }
    }

    /// Performs the once-per-call reset of the host scanner's global
    /// state: on the first use of the cursor it records a
    /// [`HostAction::ResetScanner`] action; afterwards it does nothing.
    pub fn ensure_reset(&mut self)
        ensures
            !final(self).reset_pending_spec(),
            old(self).reset_pending_spec() ==> final(self).actions_spec() == old(self).actions_spec().push(HostAction::ResetScanner),
            !old(self).reset_pending_spec() ==> final(self).actions_spec() == old(self).actions_spec(),
            final(self).words_spec() == old(self).words_spec(),
            final(self).pos_spec() == old(self).pos_spec(),
    {
        if self.reset_pending {
            self.reset_pending = false;
            self.push_action(HostAction::ResetScanner);
        }
    }

    /// Begins the option-parse pass: resets the host scanner state if
    /// this is the first use of the cursor. The events of the scan are
    /// then decoded one by one with
    /// [`crate::options::OptionSchema::next_option`].
    pub fn options(&mut self)
        ensures
            !final(self).reset_pending_spec(),
            old(self).reset_pending_spec() ==> final(self).actions_spec() == old(self).actions_spec().push(HostAction::ResetScanner),
            !old(self).reset_pending_spec() ==> final(self).actions_spec() == old(self).actions_spec(),
            final(self).words_spec() == old(self).words_spec(),
            final(self).pos_spec() == old(self).pos_spec(),
    {
        self.ensure_reset();
    }

    /// Returns the remaining arguments as raw byte strings and consumes
    /// them.
    pub fn raw_arguments(&mut self) -> (r: Vec<Vec<u8>>)
        ensures
            r.deep_view() == old(self).remaining(),
            final(self).remaining().len() == 0,
            final(self).words_spec() == old(self).words_spec(),
            !final(self).reset_pending_spec(),
            old(self).reset_pending_spec() ==> final(self).actions_spec() == old(self).actions_spec().push(HostAction::ResetScanner),
            !old(self).reset_pending_spec() ==> final(self).actions_spec() == old(self).actions_spec(),
    {
        self.ensure_reset();
        let n = self.words.len();
        let mut r: Vec<Vec<u8>> = Vec::new();
        let mut i = self.pos;
        if i > n {
            i = n;
        }
        let ghost start = i as int;
        while i < n
            invariant
                start <= i <= n,
                n == self.words.len(),
                r@.len() == i - start,
                forall|j: int| 0 <= j < r@.len() ==> (#[trigger] r@[j])@ == self.words@[start + j]@,
            decreases n - i,
        {
            let w = self.words[i].clone();
            proof {
                assert(w@ == self.words@[i as int]@);
            }
            r.push(w);
            i += 1;
        }
        self.pos = n;
        proof {
            let rem = old(self).remaining();
            assert(rem.len() == n - start);
            assert forall|j: int| 0 <= j < r@.len() implies r.deep_view()[j] == rem[j] by {
                assert(r.deep_view()[j] == r@[j].deep_view());
                assert(r@[j].deep_view() =~= r@[j]@);
                assert(rem[j] == self.words.deep_view()[start + j]);
                assert(self.words.deep_view()[start + j] == self.words@[start + j].deep_view());
                assert(self.words@[start + j].deep_view() =~= self.words@[start + j]@);
            }
            assert(r.deep_view() =~= rem);
            assert(final(self).remaining() =~= Seq::<Seq<u8>>::empty());
        }
        r
    }

    /// Like [`Args::raw_arguments`], but items are filesystem path
    /// names. A path accepts any bytes, so each item is the raw bytes of
    /// the word.
    pub fn path_arguments(&mut self) -> (r: Vec<Vec<u8>>)
        ensures
            r.deep_view() == old(self).remaining(),
            final(self).remaining().len() == 0,
            final(self).words_spec() == old(self).words_spec(),
            !final(self).reset_pending_spec(),
            old(self).reset_pending_spec() ==> final(self).actions_spec() == old(self).actions_spec().push(HostAction::ResetScanner),
            !old(self).reset_pending_spec() ==> final(self).actions_spec() == old(self).actions_spec(),
    {
        self.raw_arguments()
    }

    /// Like [`Args::raw_arguments`], but each item is `Ok` with the
    /// bytes of the word exactly when it is well-formed UTF-8.
    pub fn string_arguments(&mut self) -> (r: Vec<Result<Vec<u8>, Utf8OrParseError>>)
        ensures
            r@.len() == old(self).remaining().len(),
            forall|i: int|
                0 <= i < r@.len() ==> if is_utf8(old(self).remaining()[i]) {
                    #[trigger] r@[i] matches Ok(b) && b@ == old(self).remaining()[i]
                } else {
                    r@[i] matches Err(e) && e == Utf8OrParseError::Utf8
                },
            final(self).remaining().len() == 0,
            final(self).words_spec() == old(self).words_spec(),
            !final(self).reset_pending_spec(),
            old(self).reset_pending_spec() ==> final(self).actions_spec() == old(self).actions_spec().push(HostAction::ResetScanner),
            !old(self).reset_pending_spec() ==> final(self).actions_spec() == old(self).actions_spec(),
    {
        let raw = self.raw_arguments();
        let mut r: Vec<Result<Vec<u8>, Utf8OrParseError>> = Vec::new();
        let n = raw.len();
        let mut i: usize = 0;
        while i < n
            invariant
                i <= n,
                n == raw.len(),
                raw.deep_view() == old(self).remaining(),
                r@.len() == i,
                forall|k: int|
                    0 <= k < i ==> if is_utf8(raw.deep_view()[k]) {
                        #[trigger] r@[k] matches Ok(b) && b@ == raw.deep_view()[k]
                    } else {
                        r@[k] matches Err(e) && e == Utf8OrParseError::Utf8
                    },
            decreases n - i,
        {
            let w = raw[i].clone();
            proof {
                assert(w@ == raw@[i as int]@);
                assert(raw.deep_view()[i as int] == raw@[i as int]@);
            }
            if validate_utf8(&w) {
                r.push(Ok(w));
            } else {
                r.push(Err(Utf8OrParseError::Utf8));
            }
            i += 1;
        }
        r
    }

    /// Returns an error if there are more arguments to be processed: for
    /// builtins that accept no free arguments. On rejection a
    /// [`HostAction::TooManyArguments`] report is recorded.
    pub fn finished(&mut self) -> (r: Result<(), Error>)
        ensures
            old(self).remaining().len() == 0 ==> (r matches Ok(()) && *final(self) == *old(self)),
            old(self).remaining().len() > 0 ==> (r matches Err(e) && e == Error::Usage) && final(self).actions_spec() == old(self).actions_spec().push(HostAction::TooManyArguments),
            final(self).words_spec() == old(self).words_spec(),
            final(self).pos_spec() == old(self).pos_spec(),
            final(self).reset_pending_spec() == old(self).reset_pending_spec(),
    {
        if self.pos >= self.words.len() {
            Ok(())
        } else {
            self.push_action(HostAction::TooManyArguments);
            Err(Error::Usage)
        }
    }

    /// Returns an error if any option is passed as the first argument:
    /// for builtins that expect no options. It mirrors the host's
    /// no-option validator: a leading `--help` displays the help text, a
    /// leading `--` is accepted (the scanner skips it), and any other
    /// word starting with `-` (other than `-` alone) is rejected with
    /// the usage display.
    pub fn no_options(&mut self) -> (r: Result<(), Error>)
        ensures
            ({
                let rem = old(self).remaining();
                let rejected_help = rem.len() > 0 && rem[0] =~= help_word();
                let rejected_opt = rem.len() > 0 && !(rem[0] =~= help_word()) && rem[0].len() >= 2
                    && rem[0][0] == 0x2Du8 && !(rem[0] =~= double_dash_word());
                &&& rejected_help ==> (r matches Err(e) && e == Error::Usage) && final(self).actions_spec() == old(self).actions_spec().push(HostAction::DisplayHelp)
                &&& rejected_opt ==> (r matches Err(e) && e == Error::Usage) && final(self).actions_spec() == old(self).actions_spec().push(HostAction::DisplayUsage)
                &&& !rejected_help && !rejected_opt ==> (r matches Ok(()) && final(self).actions_spec() == old(self).actions_spec())
            }),
            final(self).words_spec() == old(self).words_spec(),
            final(self).pos_spec() == old(self).pos_spec(),
            final(self).reset_pending_spec() == old(self).reset_pending_spec(),
    {
        if self.pos >= self.words.len() {
            return Ok(());
        }
        let w = &self.words[self.pos];
        if w.len() == 6 && w[0] == 0x2D && w[1] == 0x2D && w[2] == 0x68 && w[3] == 0x65 && w[4]
            == 0x6C && w[5] == 0x70 {
            proof {
                assert(w@ =~= help_word());
            }
            self.push_action(HostAction::DisplayHelp);
            return Err(Error::Usage);
        }
        if w.len() >= 2 && w[0] == 0x2D && !(w.len() == 2 && w[1] == 0x2D) {
            proof {
                assert(!(w@ =~= help_word()));
                assert(!(w@ =~= double_dash_word()));
            }
            self.push_action(HostAction::DisplayUsage);
            return Err(Error::Usage);
        }
        proof {
            if w@.len() >= 2 && w@[0] == 0x2Du8 && !(w@ =~= double_dash_word()) {
                assert(w@.len() == 2 && w@[1] == 0x2Du8);
                assert(w@ =~= double_dash_word());
            }
        }
        Ok(())
    }
}

/// The word that requests the help display.
pub open spec fn help_word() -> Seq<u8> {
    seq![0x2Du8, 0x2D, 0x68, 0x65, 0x6C, 0x70]
}

/// The word that ends option scanning.
pub open spec fn double_dash_word() -> Seq<u8> {
    seq![0x2Du8, 0x2D]
}

} // verus!
