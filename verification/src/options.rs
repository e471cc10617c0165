//! The option schema engine.
//!
//! The build phase flattens an ordered list of [`OptionDescriptor`]s into
//! the host's parser string: each descriptor contributes its flag
//! character, plus a required-marker `:` or an optional-marker `;` if it
//! carries a payload (an optional payload is read only from the same
//! word, never the next one). Flags must be ASCII alphanumeric, a host
//! parser limitation, and unique within a schema; both are rejected when
//! the schema is built, not at decode time.
//!
//! The decode phase consumes one host scanner event per call to
//! [`OptionSchema::next_option`] and yields the typed value of the
//! matched option, via the conversion layer.

use vstd::prelude::*;

use crate::args::Args;
use crate::convert::convert;
use crate::convert::converted;
use crate::convert::DecodedValue;
use crate::convert::ValueKind;
use crate::errors::HostAction;

verus! {

/// Whether an option carries a payload, and whether the payload may be
/// absent.
#[derive(Debug, Clone, Copy, PartialEq, Eq, Structural)]
pub enum PayloadKind {
    /// The option is a bare flag.
    NoPayload,
    /// The option requires a payload; a missing one is an error.
    RequiredPayload,
    /// The option's payload may be absent; an absent one yields the
    /// declared absent value silently.
    OptionalPayload,
}

/// One option of a schema: its flag character, whether it carries a
/// payload, and the payload's target type.
#[derive(Debug, Clone, Copy, PartialEq, Eq, Structural)]
pub struct OptionDescriptor {
    /// The single-character flag, an ASCII alphanumeric byte.
    pub flag: u8,
    /// Whether the option carries a payload.
    pub payload: PayloadKind,
    /// The type the payload is decoded to.
    pub target: ValueKind,
}

/// True if `b` is an ASCII alphanumeric byte, the only flag characters
/// the host parser accepts.
pub open spec fn is_ascii_alnum(b: u8) -> bool {
    (0x30 <= b <= 0x39) || (0x41 <= b <= 0x5A) || (0x61 <= b <= 0x7A)
}

/// Well-formedness of a schema: every flag is ASCII alphanumeric and no
/// flag repeats.
pub open spec fn schema_wf(ds: Seq<OptionDescriptor>) -> bool {
    &&& forall|i: int| 0 <= i < ds.len() ==> is_ascii_alnum(#[trigger] ds[i].flag)
    &&& forall|i: int, j: int| 0 <= i < j < ds.len() ==> ds[i].flag != ds[j].flag
}

/// The contribution of one descriptor to the parser string.
pub open spec fn parser_entry(d: OptionDescriptor) -> Seq<u8> {
    match d.payload {
        PayloadKind::NoPayload => seq![d.flag],
        PayloadKind::RequiredPayload => seq![d.flag, 0x3Au8],
        PayloadKind::OptionalPayload => seq![d.flag, 0x3Bu8],
    }
}

/// The parser string of an ordered descriptor list.
pub open spec fn parser_text(ds: Seq<OptionDescriptor>) -> Seq<u8>
    decreases ds.len(),
{
    if ds.len() == 0 {
        Seq::empty()
    } else {
        parser_text(ds.drop_last()) + parser_entry(ds.last())
    }
}

/// The index of the first descriptor matching a flag character, if any.
pub open spec fn find_flag(ds: Seq<OptionDescriptor>, code: u8) -> Option<int>
    decreases ds.len(),
{
    if ds.len() == 0 {
        Option::None
    } else if ds[0].flag == code {
        Option::Some(0)
    } else {
        match find_flag(ds.skip(1), code) {
            Option::Some(i) => Option::Some(i + 1),
            Option::None => Option::None,
        }
    }
}

/// A matching descriptor found by `find_flag` really is the first one
/// carrying that flag.
pub proof fn lemma_find_flag(ds: Seq<OptionDescriptor>, code: u8)
    ensures
        match find_flag(ds, code) {
            Option::Some(i) => 0 <= i < ds.len() && ds[i].flag == code && forall|j: int|
                0 <= j < i ==> (#[trigger] ds[j]).flag != code,
            Option::None => forall|i: int| 0 <= i < ds.len() ==> (#[trigger] ds[i]).flag != code,
        },
    decreases ds.len(),
{
    if ds.len() > 0 && ds[0].flag != code {
        lemma_find_flag(ds.skip(1), code);
        assert(forall|j: int| 1 <= j < ds.len() ==> ds.skip(1)[j - 1] == #[trigger] ds[j]);
    }
}

/// How the first match moves when one descriptor is appended.
pub proof fn lemma_find_flag_push(ds: Seq<OptionDescriptor>, d: OptionDescriptor, code: u8)
    ensures
        find_flag(ds.push(d), code) == (match find_flag(ds, code) {
            Option::Some(i) => Option::Some(i),
            Option::None => if d.flag == code {
                Option::Some(ds.len() as int)
            } else {
                Option::None
            },
        }),
    decreases ds.len(),
{
    reveal_with_fuel(find_flag, 3);
    let e = ds.push(d);
    assert(e.len() == ds.len() + 1);
    if ds.len() == 0 {
        assert(e[0] == d);
        assert(e.skip(1) =~= Seq::<OptionDescriptor>::empty());
        if d.flag == code {
            assert(find_flag(e, code) == Option::Some(0int));
        } else {
            assert(find_flag(e, code) == Option::None::<int>);
        }
    } else {
        assert(e[0] == ds[0]);
        assert(e.skip(1) =~= ds.skip(1).push(d));
        lemma_find_flag_push(ds.skip(1), d, code);
        if ds[0].flag == code {
            assert(find_flag(e, code) == Option::Some(0int));
            assert(find_flag(ds, code) == Option::Some(0int));
        } else {
            assert(find_flag(e, code) == (match find_flag(ds.skip(1).push(d), code) {
                Option::Some(i) => Option::Some(i + 1),
                Option::None => Option::None::<int>,
            }));
            assert(find_flag(ds, code) == (match find_flag(ds.skip(1), code) {
                Option::Some(i) => Option::Some(i + 1),
                Option::None => Option::None::<int>,
            }));
        }
    }
}

/// Why a schema was rejected at build time.
#[derive(Debug, PartialEq, Eq, Structural, Clone, Copy)]
pub enum SchemaError {
    /// A flag character is not ASCII alphanumeric.
    NotAlphanumeric(u8),
    /// A flag character occurs twice.
    DuplicateFlag(u8),
}

/// A compiled option schema: an ordered set of descriptors whose flags
/// are unique ASCII alphanumeric characters.
#[derive(Debug)]
pub struct OptionSchema {
    descriptors: Vec<OptionDescriptor>,
}

impl View for OptionSchema {
    type V = Seq<OptionDescriptor>;

    closed spec fn view(&self) -> Seq<OptionDescriptor> {
        self.descriptors@
    }
}

impl OptionSchema {
    /// Compiles a descriptor list into a schema, rejecting a flag that
    /// is not ASCII alphanumeric or that repeats.
    pub fn build(descriptors: Vec<OptionDescriptor>) -> (r: Result<OptionSchema, SchemaError>)
        ensures
            schema_wf(descriptors@) <==> r is Ok,
            r matches Ok(s) ==> s@ == descriptors@,
            r matches Err(SchemaError::NotAlphanumeric(b)) ==> exists|i: int|
                0 <= i < descriptors@.len() && (#[trigger] descriptors@[i]).flag == b
                    && !is_ascii_alnum(b),
            r matches Err(SchemaError::DuplicateFlag(b)) ==> exists|i: int, j: int|
                0 <= i < j < descriptors@.len() && (#[trigger] descriptors@[i]).flag == b && (
                #[trigger] descriptors@[j]).flag == b,
    {
        let n = descriptors.len();
        let mut i: usize = 0;
        while i < n
            invariant
                i <= n,
                n == descriptors.len(),
                forall|k: int| 0 <= k < i ==> is_ascii_alnum(#[trigger] descriptors@[k].flag),
                forall|k: int, l: int| 0 <= k < l < i ==> descriptors@[k].flag != descriptors@[l].flag,
            decreases n - i,
        {
            let b = descriptors[i].flag;
            if !((0x30 <= b && b <= 0x39) || (0x41 <= b && b <= 0x5A) || (0x61 <= b && b <= 0x7A)) {
                return Err(SchemaError::NotAlphanumeric(b));
            }
            let mut j: usize = 0;
            while j < i
                invariant
                    j <= i < n,
                    n == descriptors.len(),
                    b == descriptors@[i as int].flag,
                    forall|k: int| 0 <= k < j ==> descriptors@[k].flag != b,
                decreases i - j,
            {
                if descriptors[j].flag == b {
                    return Err(SchemaError::DuplicateFlag(b));
                }
                j += 1;
            }
            i += 1;
        }
        Ok(OptionSchema { descriptors })
    }

    /// The number of descriptors in the schema.
    pub fn len(&self) -> (r: usize)
        ensures
            r == self@.len(),
    {
        self.descriptors.len()
    }

    /// The descriptor at a position.
    pub fn descriptor(&self, i: usize) -> (r: OptionDescriptor)
        requires
            i < self@.len(),
        ensures
            r == self@[i as int],
    {
        self.descriptors[i]
    }

    /// The parser string handed to the host's option scanner: one
    /// character per flag, followed by `:` for a required payload or `;`
    /// for an optional one.
    pub fn parser_string(&self) -> (r: Vec<u8>)
        ensures
            r@ == parser_text(self@),
    {
        let n = self.descriptors.len();
        let mut r: Vec<u8> = Vec::new();
        let mut i: usize = 0;
        proof {
            assert(self@.subrange(0, 0) =~= Seq::<OptionDescriptor>::empty());
        }
        while i < n
            invariant
                i <= n,
                n == self@.len(),
                r@ == parser_text(self@.subrange(0, i as int)),
            decreases n - i,
        {
            let d = self.descriptors[i];
            let ghost pre = self@.subrange(0, i as int);
            r.push(d.flag);
            match d.payload {
                PayloadKind::NoPayload => {},
                PayloadKind::RequiredPayload => {
                    r.push(0x3A);
                },
                PayloadKind::OptionalPayload => {
                    r.push(0x3B);
                },
            }
            proof {
                let cur = self@.subrange(0, i + 1);
                assert(cur.drop_last() =~= pre);
                assert(cur.last() == self@[i as int]);
                assert(r@ =~= parser_text(pre) + parser_entry(self@[i as int]));
            }
            i += 1;
        }
        proof {
            assert(self@.subrange(0, n as int) =~= self@);
        }
        r
    }

    /// The parser string with the terminator byte the host's C calling
    /// convention expects.
    pub fn parser_cstring(&self) -> (r: Vec<u8>)
        ensures
            r@ == parser_text(self@).push(0u8),
    {
        let mut r = self.parser_string();
        r.push(0);
        r
    }
}

/// The length of one descriptor's parser-string contribution: one for
/// the flag, plus one if it carries a payload.
pub open spec fn parser_entry_len(d: OptionDescriptor) -> int {
    match d.payload {
        PayloadKind::NoPayload => 1,
        PayloadKind::RequiredPayload => 2,
        PayloadKind::OptionalPayload => 2,
    }
}

/// The sum of the descriptors' parser-string contributions.
pub open spec fn parser_len_sum(ds: Seq<OptionDescriptor>) -> int
    decreases ds.len(),
{
    if ds.len() == 0 {
        0
    } else {
        parser_len_sum(ds.drop_last()) + parser_entry_len(ds.last())
    }
}

/// For any schema, the parser string's length is the sum over its
/// descriptors of one, plus one more for each descriptor that carries a
/// payload.
pub proof fn lemma_parser_string_length(ds: Seq<OptionDescriptor>)
    ensures
        parser_text(ds).len() == parser_len_sum(ds),
    decreases ds.len(),
{
    if ds.len() > 0 {
        lemma_parser_string_length(ds.drop_last());
    }
}

/// One step reported by the host's option scanner.
#[derive(Debug)]
pub enum ScanEvent {
    /// End of options: the scanner stopped, with `next` the position of
    /// the first following free argument in the word list.
    End { next: usize },
    /// The user asked for the builtin's help text.
    HelpRequested,
    /// The scanner matched a flag character, with the raw payload if one
    /// was present in the same word or the next one.
    Flag { code: u8, payload: Option<Vec<u8>> },
}

/// The outcome of decoding one scanner event.
#[derive(Debug)]
pub enum OptionStep {
    /// Option parsing is over; the cursor stands at the first free
    /// argument.
    Finished,
    /// The option of descriptor `index` matched, with its decoded value.
    Matched { index: usize, value: DecodedValue },
    /// The event was rejected; the invocation is a usage error.
    Rejected,
}

impl OptionSchema {
    /// Decodes one host scanner event against this schema.
    ///
    /// End-of-options advances the cursor to the first free argument and
    /// finishes the pass. A help request records the help display and is
    /// rejected. A flag outside the schema records the usage display and
    /// is rejected (the host has already named the offending option). A
    /// matched flag yields the descriptor's fixed value if it takes no
    /// payload; otherwise its payload is decoded to the declared target
    /// type: a missing required payload records exactly one
    /// missing-argument notification and is rejected, a missing optional
    /// payload yields the declared absent value with no diagnostic, and
    /// a payload that fails conversion records the failure and is
    /// rejected.
    pub fn next_option(&self, args: &mut Args, event: ScanEvent) -> (r: OptionStep)
        ensures
            final(args).words_spec() == old(args).words_spec(),
            final(args).reset_pending_spec() == old(args).reset_pending_spec(),
            match event {
                ScanEvent::End { next } => {
                    &&& r is Finished
                    &&& final(args).actions_spec() == old(args).actions_spec()
                    &&& final(args).pos_spec() == if next > old(args).words_spec().len() {
                        if old(args).pos_spec() > old(args).words_spec().len() {
                            old(args).pos_spec()
                        } else {
                            old(args).words_spec().len() as int
                        }
                    } else if next as int > old(args).pos_spec() {
                        next as int
                    } else {
                        old(args).pos_spec()
                    }
                },
                ScanEvent::HelpRequested => {
                    &&& r is Rejected
                    &&& final(args).actions_spec() == old(args).actions_spec().push(
                        HostAction::DisplayHelp,
                    )
                    &&& final(args).pos_spec() == old(args).pos_spec()
                },
                ScanEvent::Flag { code, payload } => {
                    &&& final(args).pos_spec() == old(args).pos_spec()
                    &&& match find_flag(self@, code) {
                        Option::None => {
                            &&& r is Rejected
                            &&& final(args).actions_spec() == old(args).actions_spec().push(
                                HostAction::DisplayUsage,
                            )
                        },
                        Option::Some(i) => {
                            let d = self@[i];
                            match d.payload {
                                PayloadKind::NoPayload => {
                                    &&& (r matches OptionStep::Matched { index, value }
                                        && index == i && value is Unit)
                                    &&& final(args).actions_spec() == old(args).actions_spec()
                                },
                                PayloadKind::RequiredPayload => match payload {
                                    Option::None => {
                                        &&& r is Rejected
                                        &&& final(args).actions_spec() == old(args).actions_spec().push(HostAction::MissingArgument(code))
                                    },
                                    Option::Some(raw) => payload_decoded(
                                        d,
                                        i,
                                        code,
                                        raw@,
                                        r,
                                        old(args).actions_spec(),
                                        final(args).actions_spec(),
                                    ),
                                },
                                PayloadKind::OptionalPayload => match payload {
                                    Option::None => {
                                        &&& (r matches OptionStep::Matched { index, value }
                                            && index == i && value is Absent)
                                        &&& final(args).actions_spec() == old(args).actions_spec()
                                    },
                                    Option::Some(raw) => payload_decoded(
                                        d,
                                        i,
                                        code,
                                        raw@,
                                        r,
                                        old(args).actions_spec(),
                                        final(args).actions_spec(),
                                    ),
                                },
                            }
                        },
                    }
                },
            },
    {
        match event {
            ScanEvent::End { next } => {
                args.advance_to(next);
                OptionStep::Finished
            },
            ScanEvent::HelpRequested => {
                args.push_action(HostAction::DisplayHelp);
                OptionStep::Rejected
            },
            ScanEvent::Flag { code, payload } => {
                proof {
                    lemma_find_flag(self@, code);
                }
                let n = self.descriptors.len();
                let mut i: usize = 0;
                let mut found: Option<usize> = Option::None;
                while i < n
                    invariant
                        i <= n,
                        n == self@.len(),
                        match found {
                            Option::Some(k) => k < i <= n && self@[k as int].flag == code
                                && find_flag(self@.subrange(0, i as int), code) == Option::Some(
                                k as int,
                            ),
                            Option::None => find_flag(self@.subrange(0, i as int), code)
                                == Option::None::<int>,
                        },
                    decreases n - i,
                {
                    proof {
                        assert(self@.subrange(0, i + 1) =~= self@.subrange(0, i as int).push(
                            self@[i as int],
                        ));
                        lemma_find_flag_push(self@.subrange(0, i as int), self@[i as int], code);
                    }
                    if found.is_none() && self.descriptors[i].flag == code {
                        found = Option::Some(i);
                    }
                    i += 1;
                }
                proof {
                    assert(self@.subrange(0, n as int) =~= self@);
                }
                let idx = match found {
                    Option::Some(k) => k,
                    Option::None => {
                        args.push_action(HostAction::DisplayUsage);
                        return OptionStep::Rejected;
                    },
                };
                let d = self.descriptors[idx];
                match d.payload {
                    PayloadKind::NoPayload => OptionStep::Matched {
                        index: idx,
                        value: DecodedValue::Unit,
                    },
                    PayloadKind::RequiredPayload => match payload {
                        Option::None => {
                            args.push_action(HostAction::MissingArgument(code));
                            OptionStep::Rejected
                        },
                        Option::Some(raw) => decode_payload(d, idx, code, raw, args),
                    },
                    PayloadKind::OptionalPayload => match payload {
                        Option::None => OptionStep::Matched {
                            index: idx,
                            value: DecodedValue::Absent,
                        },
                        Option::Some(raw) => decode_payload(d, idx, code, raw, args),
                    },
                }
            },
        }
    }
}

/// Exactly when `r` and the recorded actions are the correct outcome of
/// decoding present payload bytes `raw` for descriptor `d` at index `i`:
/// a successful conversion yields the value with no diagnostic, a failed
/// one records the failure and is rejected.
pub open spec fn payload_decoded(
    d: OptionDescriptor,
    i: int,
    code: u8,
    raw: Seq<u8>,
    r: OptionStep,
    actions_before: Seq<HostAction>,
    actions_after: Seq<HostAction>,
) -> bool {
    if exists|v: DecodedValue| converted(d.target, raw, Ok(v)) {
        &&& (r matches OptionStep::Matched { index, value }
            && index == i && converted(d.target, raw, Ok(value)))
        &&& actions_after == actions_before
    } else {
        &&& r is Rejected
        &&& actions_after == actions_before.push(HostAction::ConversionError(code))
    }
}

/// Decodes a present payload for a matched descriptor, recording the
/// conversion failure if there is one.
fn decode_payload(d: OptionDescriptor, idx: usize, code: u8, raw: Vec<u8>, args: &mut Args) -> (r:
    OptionStep)
    ensures
        payload_decoded(
            d,
            idx as int,
            code,
            raw@,
            r,
            old(args).actions_spec(),
            final(args).actions_spec(),
        ),
        final(args).words_spec() == old(args).words_spec(),
        final(args).pos_spec() == old(args).pos_spec(),
        final(args).reset_pending_spec() == old(args).reset_pending_spec(),
{
    let ghost bytes = raw@;
    match convert(d.target, raw) {
        Ok(value) => {
            proof {
                assert(converted(d.target, bytes, Ok(value)));
            }
            OptionStep::Matched { index: idx, value }
        },
        Err(e) => {
            proof {
                assert(forall|v: DecodedValue| !converted(d.target, bytes, Ok(v))) by {
                    assert(converted(d.target, bytes, Err::<
                        DecodedValue,
                        crate::convert::Utf8OrParseError,
                    >(e)));
                };
            }
            args.push_action(HostAction::ConversionError(code));
            OptionStep::Rejected
        },
    }
}

} // verus!
