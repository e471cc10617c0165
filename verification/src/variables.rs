//! Typed access to host-owned shell variables.
//!
//! The host owns the variables; this module models what the bridge
//! reads and writes of them. A [`RawVariable`] is the image of one
//! variable record: a scalar byte string, an indexed-array ring image,
//! or an associative-array bucket image, classified as the host does by
//! attribute bits (see [`classify`]). A [`VarStore`] holds the variables
//! the bridge sees during a call, keyed by name.
//!
//! The ring layout is host-version-dependent: [`detect_layout`] parses
//! the host's version string and selects the matching sentinel field,
//! a probe the process runs once and memoizes in the store.
//!
//! Names must pass the host's identifier-legality rule, mirrored by
//! [`is_legal_identifier`]; names and values handed to the host must
//! not embed the C-string terminator byte.

use vstd::prelude::*;

use crate::arrays::array_items;
use crate::arrays::items_of;
use crate::arrays::pair_get;
use crate::arrays::pair_lookup;
use crate::arrays::pairs_view;
use crate::arrays::upsert;
use crate::arrays::upsert_pairs;
use crate::arrays::ArrayRing;
use crate::arrays::SentinelField;
use crate::assoc::assoc_find;
use crate::assoc::assoc_items;
use crate::assoc::assoc_upsert;
use crate::assoc::assoc_upsert_items;
use crate::assoc::buckets_view;
use crate::assoc::find_prefix;
use crate::assoc::kv_view;
use crate::assoc::table_walk;
use crate::assoc::BucketTable;
use crate::convert::bytes_eq;
use crate::convert::contains_nul;
use crate::convert::dec_value;
use crate::convert::has_nul;
use crate::convert::is_dec_digit;
use crate::convert::parse_u64;
use crate::convert::ParseError;

verus! {

/// The attribute bit marking an indexed array in a host record.
pub const ATT_ARRAY: i32 = 0x0000004;

/// The attribute bit marking an associative array in a host record.
pub const ATT_ASSOC: i32 = 0x0000040;

/// The classification of a variable record.
#[derive(Debug, Clone, Copy, PartialEq, Eq, Structural)]
pub enum VarClass {
    /// A single string.
    ScalarVar,
    /// An indexed array.
    IndexedVar,
    /// An associative array.
    AssocVar,
}

/// Classifies a record by its attribute bits, the associative bit
/// taking precedence, as the host's record layout demands.
pub fn classify(attributes: i32) -> (r: VarClass)
    ensures
        r == (if attributes & ATT_ASSOC != 0 {
            VarClass::AssocVar
        } else if attributes & ATT_ARRAY != 0 {
            VarClass::IndexedVar
        } else {
            VarClass::ScalarVar
        }),
{
    if attributes & ATT_ASSOC != 0 {
        VarClass::AssocVar
    } else if attributes & ATT_ARRAY != 0 {
        VarClass::IndexedVar
    } else {
        VarClass::ScalarVar
    }
}

/// An error from a shell variable operation, like [`set`] or
/// [`crate::dynvars::bind`].
#[derive(Debug, PartialEq, Eq, Structural, Clone, Copy)]
pub enum VariableError {
    /// The name does not pass the host's identifier-legality rule, or
    /// embeds a terminator byte.
    InvalidName,
    /// The value embeds a terminator byte, or the host refused the
    /// binding.
    InvalidValue,
    /// The variable exists but is not an associative array.
    NotAssocArray,
    /// The bridge's own state was not as expected.
    InternalError,
}

/// An error from [`set_value`].
#[derive(Debug, PartialEq, Eq, Structural, Clone, Copy)]
pub enum SetValueError {
    /// The name does not pass the host's identifier-legality rule, or
    /// embeds a terminator byte.
    InvalidName,
    /// The value embeds a terminator byte.
    InvalidValue,
}

/// The contents of one variable record.
#[derive(Debug)]
pub enum VarPayload {
    /// A single string.
    Scalar(Vec<u8>),
    /// An indexed array, as the image of the host's element ring.
    Indexed(ArrayRing),
    /// An associative array, as the image of the host's bucket table.
    Assoc(BucketTable),
}

/// The image of one shell variable record.
#[derive(Debug)]
pub struct RawVariable {
    /// The record's contents.
    pub payload: VarPayload,
}

/// The contents of a variable, decoded.
#[derive(Debug)]
pub enum Variable {
    /// A single string.
    Str(Vec<u8>),
    /// An indexed array: the element values in enumeration order.
    Array(Vec<Vec<u8>>),
    /// An associative array: the key-value pairs in enumeration order.
    Assoc(Vec<(Vec<u8>, Vec<u8>)>),
}

/// The mathematical content of a variable record, under a ring layout.
pub enum VarModel {
    /// A single string.
    Scalar(Seq<u8>),
    /// An indexed array: its enumerated index-value pairs.
    Indexed(Seq<(i64, Seq<u8>)>),
    /// An associative array: its enumerated key-value pairs.
    Assoc(Seq<(Seq<u8>, Seq<u8>)>),
}

/// The content of a record, under the chosen ring layout.
pub open spec fn var_model(v: RawVariable, layout: SentinelField) -> VarModel {
    match v.payload {
        VarPayload::Scalar(b) => VarModel::Scalar(b@),
        VarPayload::Indexed(ring) => VarModel::Indexed(items_of(ring, layout)),
        VarPayload::Assoc(t) => VarModel::Assoc(table_walk(buckets_view(t))),
    }
}

/// The values of an enumerated index-value pair list, in order.
pub open spec fn values_of(items: Seq<(i64, Seq<u8>)>) -> Seq<Seq<u8>> {
    Seq::new(items.len(), |i: int| items[i].1)
}

impl RawVariable {
    /// Returns `true` if the variable contains an indexed array.
    pub fn is_array(&self) -> (r: bool)
        ensures
            r == (self.payload is Indexed),
    {
        match &self.payload {
            VarPayload::Indexed(_) => true,
            _ => false,
        }
    }

    /// Returns `true` if the variable contains an associative array.
    pub fn is_assoc(&self) -> (r: bool)
        ensures
            r == (self.payload is Assoc),
    {
        match &self.payload {
            VarPayload::Assoc(_) => true,
            _ => false,
        }
    }

    /// Returns the string contained in the variable, or nothing if it
    /// contains an array of either kind.
    pub fn as_str(&self) -> (r: Option<&Vec<u8>>)
        ensures
            match self.payload {
                VarPayload::Scalar(b) => r matches Some(s) && s@ == b@,
                _ => r is None,
            },
    {
        match &self.payload {
            VarPayload::Scalar(b) => Some(b),
            _ => None,
        }
    }

    /// Enumerates the indexed array contained in the variable under the
    /// given ring layout; an array of the other kind, or a scalar,
    /// yields nothing.
    pub fn array_items(&self, layout: SentinelField) -> (r: Vec<(i64, Vec<u8>)>)
        ensures
            match self.payload {
                VarPayload::Indexed(ring) => pairs_view(r@) == items_of(ring, layout),
                _ => r@.len() == 0,
            },
    {
        match &self.payload {
            VarPayload::Indexed(ring) => array_items(ring, layout),
            _ => Vec::new(),
        }
    }

    /// Enumerates the associative array contained in the variable, in
    /// bucket-then-chain order; any other variable yields nothing.
    pub fn assoc_items(&self) -> (r: Vec<(Vec<u8>, Vec<u8>)>)
        ensures
            match self.payload {
                VarPayload::Assoc(t) => kv_view(r@) == table_walk(buckets_view(t)),
                _ => r@.len() == 0,
            },
    {
        match &self.payload {
            VarPayload::Assoc(t) => assoc_items(t),
            _ => Vec::new(),
        }
    }

    /// Extracts a copy of the contents of the variable: the scalar's
    /// bytes, an indexed array's values in enumeration order, or an
    /// associative array's pairs in enumeration order.
    pub fn get(&self, layout: SentinelField) -> (r: Variable)
        ensures
            match var_model(*self, layout) {
                VarModel::Scalar(b) => r matches Variable::Str(s) && s@ == b,
                VarModel::Indexed(items) => r matches Variable::Array(vs) && vs.deep_view()
                    == values_of(items),
                VarModel::Assoc(items) => r matches Variable::Assoc(ps) && kv_view(ps@) == items,
            },
    {
        if self.is_assoc() {
            Variable::Assoc(self.assoc_items())
        } else if self.is_array() {
            let items = self.array_items(layout);
            let mut vs: Vec<Vec<u8>> = Vec::new();
            let n = items.len();
            let mut i: usize = 0;
            while i < n
                invariant
                    i <= n,
                    n == items@.len(),
                    vs@.len() == i,
                    forall|k: int| 0 <= k < i ==> (#[trigger] vs@[k])@ == items@[k].1@,
                decreases n - i,
            {
                let v = items[i].1.clone();
                proof {
                    assert(v@ == items@[i as int].1@);
                }
                vs.push(v);
                i += 1;
            }
            proof {
                let ghost m = var_model(*self, layout);
                if let VarModel::Indexed(its) = m {
                    assert forall|k: int| 0 <= k < vs@.len() implies vs.deep_view()[k] == values_of(
                        its,
                    )[k] by {
                        assert(vs.deep_view()[k] == vs@[k]@);
                        assert(its[k] == pairs_view(items@)[k]);
                    }
                    assert(vs.deep_view() =~= values_of(its));
                }
            }
            Variable::Array(vs)
        } else {
            match &self.payload {
                VarPayload::Scalar(b) => Variable::Str(b.clone()),
                _ => Variable::Str(Vec::new()),
            }
        }
    }
}

/// True if `b` is an ASCII letter.
pub open spec fn is_ascii_alpha(b: u8) -> bool {
    (0x41 <= b <= 0x5A) || (0x61 <= b <= 0x7A)
}

/// The host's identifier-legality rule: a non-empty name whose first
/// byte is a letter or underscore and whose remaining bytes are
/// letters, digits or underscores.
pub open spec fn is_legal_identifier(s: Seq<u8>) -> bool {
    &&& s.len() > 0
    &&& (is_ascii_alpha(s[0]) || s[0] == 0x5F)
    &&& forall|i: int|
        1 <= i < s.len() ==> is_ascii_alpha(#[trigger] s[i]) || is_dec_digit(s[i]) || s[i] == 0x5F
}

/// Checks the host's identifier-legality rule.
pub fn legal_identifier(s: &Vec<u8>) -> (r: bool)
    ensures
        r == is_legal_identifier(s@),
{
    let n = s.len();
    if n == 0 {
        return false;
    }
    let b0 = s[0];
    if !((0x41 <= b0 && b0 <= 0x5A) || (0x61 <= b0 && b0 <= 0x7A) || b0 == 0x5F) {
        return false;
    }
    let mut i: usize = 1;
    while i < n
        invariant
            1 <= i <= n,
            n == s.len(),
            forall|k: int|
                1 <= k < i ==> is_ascii_alpha(#[trigger] s@[k]) || is_dec_digit(s@[k]) || s@[k]
                    == 0x5F,
        decreases n - i,
    {
        let b = s[i];
        if !((0x41 <= b && b <= 0x5A) || (0x61 <= b && b <= 0x7A) || (0x30 <= b && b <= 0x39) || b
            == 0x5F) {
            return false;
        }
        i += 1;
    }
    true
}

/// The length of the leading run of decimal digits.
pub open spec fn digit_prefix_len(s: Seq<u8>) -> int
    decreases s.len(),
{
    if s.len() > 0 && is_dec_digit(s[0]) {
        1 + digit_prefix_len(s.skip(1))
    } else {
        0
    }
}

/// A position with digits before it and a non-digit (or the end) at it
/// is the digit-prefix length.
proof fn lemma_digit_prefix_at(s: Seq<u8>, k: int)
    requires
        0 <= k <= s.len(),
        forall|j: int| 0 <= j < k ==> is_dec_digit(#[trigger] s[j]),
        k == s.len() || !is_dec_digit(s[k]),
    ensures
        digit_prefix_len(s) == k,
    decreases k,
{
    if k > 0 {
        lemma_digit_prefix_at(s.skip(1), k - 1);
        assert(forall|j: int| 0 <= j < s.skip(1).len() ==> s.skip(1)[j] == #[trigger] s[j + 1]);
    }
}

/// The ring layout a host version string selects: major version five
/// and above (or an unreadable version) uses the head field, older
/// hosts the last-reference field.
pub open spec fn layout_for(s: Seq<u8>) -> SentinelField {
    let k = digit_prefix_len(s);
    if k == 0 {
        SentinelField::HeadField
    } else if dec_value(s.subrange(0, k)) >= 5 {
        SentinelField::HeadField
    } else {
        SentinelField::LastrefField
    }
}

/// Selects the ring layout from the host's version string, by its
/// leading major-version number. The probe runs once per process; its
/// result is memoized in the [`VarStore`].
pub fn detect_layout(version: &Vec<u8>) -> (r: SentinelField)
    ensures
        r == layout_for(version@),
{
    let n = version.len();
    let mut k: usize = 0;
    while k < n && 0x30 <= version[k] && version[k] <= 0x39
        invariant
            k <= n,
            n == version.len(),
            forall|j: int| 0 <= j < k ==> is_dec_digit(#[trigger] version@[j]),
        decreases n - k,
    {
        k += 1;
    }
    proof {
        lemma_digit_prefix_at(version@, k as int);
    }
    if k == 0 {
        return SentinelField::HeadField;
    }
    let mut digits: Vec<u8> = Vec::new();
    let mut i: usize = 0;
    while i < k
        invariant
            i <= k <= n,
            n == version.len(),
            digits@ =~= version@.subrange(0, i as int),
        decreases k - i,
    {
        digits.push(version[i]);
        i += 1;
    }
    proof {
        assert(digits@ =~= version@.subrange(0, k as int));
        assert(forall|j: int| 0 <= j < k ==> is_dec_digit(#[trigger] version@[j]));
        assert(forall|j: int| 0 <= j < digits@.len() ==> is_dec_digit(#[trigger] digits@[j]));
    }
    match parse_u64(&digits) {
        Ok(v) => {
            if v >= 5 {
                SentinelField::HeadField
            } else {
                SentinelField::LastrefField
            }
        },
        Err(ParseError::Overflow) => {
            proof {
                crate::convert::lemma_dec_value_nonneg(digits@);
            }
            SentinelField::HeadField
        },
        Err(_) => SentinelField::HeadField,
    }
}

/// The shell variables the bridge sees during a call, keyed by name,
/// plus the memoized ring layout of this host.
pub struct VarStore {
    vars: Vec<(Vec<u8>, RawVariable)>,
    layout: SentinelField,
}

/// The first record with the given name, if any.
pub open spec fn model_lookup(e: Seq<(Seq<u8>, VarModel)>, name: Seq<u8>) -> Option<VarModel>
    decreases e.len(),
{
    if e.len() == 0 {
        Option::None
    } else if e[0].0 == name {
        Option::Some(e[0].1)
    } else {
        model_lookup(e.skip(1), name)
    }
}

/// The store after binding `m` under `name`: the first record with that
/// name is replaced in place, or a new record is appended.
pub open spec fn model_upsert(e: Seq<(Seq<u8>, VarModel)>, name: Seq<u8>, m: VarModel) -> Seq<
    (Seq<u8>, VarModel),
>
    decreases e.len(),
{
    if e.len() == 0 {
        seq![(name, m)]
    } else if e[0].0 == name {
        seq![(name, m)] + e.skip(1)
    } else {
        seq![e[0]] + model_upsert(e.skip(1), name, m)
    }
}

/// The store after unbinding `name`: the first record with that name is
/// removed.
pub open spec fn model_remove(e: Seq<(Seq<u8>, VarModel)>, name: Seq<u8>) -> Seq<
    (Seq<u8>, VarModel),
>
    decreases e.len(),
{
    if e.len() == 0 {
        Seq::empty()
    } else if e[0].0 == name {
        e.skip(1)
    } else {
        seq![e[0]] + model_remove(e.skip(1), name)
    }
}

/// A first match at `i` resolves the lookup.
proof fn lemma_model_lookup_at(e: Seq<(Seq<u8>, VarModel)>, name: Seq<u8>, i: int)
    requires
        0 <= i < e.len(),
        e[i].0 == name,
        forall|j: int| 0 <= j < i ==> (#[trigger] e[j]).0 != name,
    ensures
        model_lookup(e, name) == Option::Some(e[i].1),
    decreases i,
{
    if i > 0 {
        lemma_model_lookup_at(e.skip(1), name, i - 1);
        assert(forall|j: int| 0 <= j < e.skip(1).len() ==> e.skip(1)[j] == #[trigger] e[j + 1]);
    }
}

/// With no match anywhere the lookup is empty.
proof fn lemma_model_lookup_none(e: Seq<(Seq<u8>, VarModel)>, name: Seq<u8>)
    requires
        forall|j: int| 0 <= j < e.len() ==> (#[trigger] e[j]).0 != name,
    ensures
        model_lookup(e, name) is None,
    decreases e.len(),
{
    if e.len() > 0 {
        assert(forall|j: int| 0 <= j < e.skip(1).len() ==> e.skip(1)[j] == #[trigger] e[j + 1]);
        lemma_model_lookup_none(e.skip(1), name);
    }
}

/// A first match at `i` makes the upsert an in-place update.
proof fn lemma_model_upsert_at(e: Seq<(Seq<u8>, VarModel)>, name: Seq<u8>, m: VarModel, i: int)
    requires
        0 <= i < e.len(),
        e[i].0 == name,
        forall|j: int| 0 <= j < i ==> (#[trigger] e[j]).0 != name,
    ensures
        model_upsert(e, name, m) =~= e.update(i, (name, m)),
    decreases i,
{
    if i > 0 {
        lemma_model_upsert_at(e.skip(1), name, m, i - 1);
        assert(forall|j: int| 0 <= j < e.skip(1).len() ==> e.skip(1)[j] == #[trigger] e[j + 1]);
        assert(model_upsert(e, name, m) =~= seq![e[0]] + model_upsert(e.skip(1), name, m));
        assert(seq![e[0]] + e.skip(1).update(i - 1, (name, m)) =~= e.update(i, (name, m)));
    }
}

/// With no match anywhere the upsert appends.
proof fn lemma_model_upsert_none(e: Seq<(Seq<u8>, VarModel)>, name: Seq<u8>, m: VarModel)
    requires
        forall|j: int| 0 <= j < e.len() ==> (#[trigger] e[j]).0 != name,
    ensures
        model_upsert(e, name, m) =~= e.push((name, m)),
    decreases e.len(),
{
    if e.len() > 0 {
        assert(forall|j: int| 0 <= j < e.skip(1).len() ==> e.skip(1)[j] == #[trigger] e[j + 1]);
        lemma_model_upsert_none(e.skip(1), name, m);
        assert(model_upsert(e, name, m) =~= seq![e[0]] + model_upsert(e.skip(1), name, m));
        assert(seq![e[0]] + e.skip(1).push((name, m)) =~= e.push((name, m)));
    }
}

/// A first match at `i` makes the removal an excision at `i`.
proof fn lemma_model_remove_at(e: Seq<(Seq<u8>, VarModel)>, name: Seq<u8>, i: int)
    requires
        0 <= i < e.len(),
        e[i].0 == name,
        forall|j: int| 0 <= j < i ==> (#[trigger] e[j]).0 != name,
    ensures
        model_remove(e, name) =~= e.subrange(0, i) + e.skip(i + 1),
    decreases i,
{
    if i > 0 {
        lemma_model_remove_at(e.skip(1), name, i - 1);
        assert(forall|j: int| 0 <= j < e.skip(1).len() ==> e.skip(1)[j] == #[trigger] e[j + 1]);
        assert(model_remove(e, name) =~= seq![e[0]] + model_remove(e.skip(1), name));
        assert(e.skip(1).subrange(0, i - 1) =~= e.subrange(1, i));
        assert(e.skip(1).skip(i) =~= e.skip(i + 1));
        assert(seq![e[0]] + (e.subrange(1, i) + e.skip(i + 1)) =~= e.subrange(0, i) + e.skip(
            i + 1,
        ));
    }
}

/// With no match anywhere the removal changes nothing.
proof fn lemma_model_remove_none(e: Seq<(Seq<u8>, VarModel)>, name: Seq<u8>)
    requires
        forall|j: int| 0 <= j < e.len() ==> (#[trigger] e[j]).0 != name,
    ensures
        model_remove(e, name) =~= e,
    decreases e.len(),
{
    if e.len() > 0 {
        assert(forall|j: int| 0 <= j < e.skip(1).len() ==> e.skip(1)[j] == #[trigger] e[j + 1]);
        lemma_model_remove_none(e.skip(1), name);
        assert(model_remove(e, name) =~= seq![e[0]] + model_remove(e.skip(1), name));
    }
}

impl VarStore {
    /// The ring layout this store was probed with.
    pub closed spec fn layout_spec(&self) -> SentinelField {
        self.layout
    }

    /// The records of the store, in order: each name with the content
    /// of its record.
    pub closed spec fn model(&self) -> Seq<(Seq<u8>, VarModel)> {
        Seq::new(
            self.vars@.len(),
            |i: int| (self.vars@[i].0@, var_model(self.vars@[i].1, self.layout)),
        )
    }

    /// An empty store for a host with the given ring layout.
    pub fn new(layout: SentinelField) -> (r: VarStore)
        ensures
            r.model() == Seq::<(Seq<u8>, VarModel)>::empty(),
            r.layout_spec() == layout,
    {
        let r = VarStore { vars: Vec::new(), layout };
        proof {
            assert(r.model() =~= Seq::<(Seq<u8>, VarModel)>::empty());
        }
        r
    }

    /// The ring layout this store was probed with.
    pub fn layout(&self) -> (r: SentinelField)
        ensures
            r == self.layout_spec(),
    {
        self.layout
    }

    /// The position of the first record with this name.
    fn position_of(&self, name: &Vec<u8>) -> (r: Option<usize>)
        ensures
            match r {
                Some(i) => i < self.model().len() && self.model()[i as int].0 == name@ && forall|
                    j: int,
                |
                    0 <= j < i ==> (#[trigger] self.model()[j]).0 != name@,
                None => forall|j: int|
                    0 <= j < self.model().len() ==> (#[trigger] self.model()[j]).0 != name@,
            },
    {
        let n = self.vars.len();
        let mut i: usize = 0;
        while i < n
            invariant
                i <= n,
                n == self.vars@.len(),
                n == self.model().len(),
                forall|j: int| 0 <= j < i ==> (#[trigger] self.model()[j]).0 != name@,
            decreases n - i,
        {
            if bytes_eq(&self.vars[i].0, name) {
                proof {
                    assert(self.model()[i as int].0 == name@);
                }
                return Some(i);
            }
            proof {
                assert(self.model()[i as int].0 == self.vars@[i as int].0@);
            }
            i += 1;
        }
        None
    }

    /// Replaces the record at a known position.
    fn set_at(&mut self, i: usize, name: Vec<u8>, var: RawVariable)
        requires
            i < old(self).model().len(),
        ensures
            final(self).model() == old(self).model().update(
                i as int,
                (name@, var_model(var, old(self).layout_spec())),
            ),
            final(self).layout_spec() == old(self).layout_spec(),
    {
        self.vars.set(i, (name, var));
        proof {
            assert(final(self).model() =~= old(self).model().update(
                i as int,
                (name@, var_model(var, old(self).layout_spec())),
            ));
        }
    }

    /// Appends a new record.
    fn push_record(&mut self, name: Vec<u8>, var: RawVariable)
        ensures
            final(self).model() == old(self).model().push(
                (name@, var_model(var, old(self).layout_spec())),
            ),
            final(self).layout_spec() == old(self).layout_spec(),
    {
        self.vars.push((name, var));
        proof {
            assert(final(self).model() =~= old(self).model().push(
                (name@, var_model(var, old(self).layout_spec())),
            ));
        }
    }

    /// Removes the record at a known position.
    fn remove_at(&mut self, i: usize)
        requires
            i < old(self).model().len(),
        ensures
            final(self).model() == old(self).model().subrange(0, i as int) + old(self).model().skip(i as int + 1),
            final(self).layout_spec() == old(self).layout_spec(),
    {
        self.vars.remove(i);
        proof {
            assert(final(self).model() =~= old(self).model().subrange(0, i as int) + old(self).model().skip(i as int + 1));
        }
    }
}

/// Returns a reference to the record of the shell variable referenced
/// by `name`, or nothing if no such variable exists (or the name embeds
/// a terminator byte, which no host variable name can).
pub fn find_raw<'a>(store: &'a VarStore, name: &Vec<u8>) -> (r: Option<&'a RawVariable>)
    ensures
        match r {
            Some(v) => !has_nul(name@) && model_lookup(store.model(), name@) == Option::Some(
                var_model(*v, store.layout_spec()),
            ),
            None => has_nul(name@) || model_lookup(store.model(), name@) is None,
        },
{
    if contains_nul(name) {
        return None;
    }
    match store.position_of(name) {
        Some(i) => {
            proof {
                lemma_model_lookup_at(store.model(), name@, i as int);
            }
            Some(&store.vars[i].1)
        },
        None => {
            proof {
                lemma_model_lookup_none(store.model(), name@);
            }
            None
        },
    }
}

/// Returns a copy of the decoded value of the shell variable referenced
/// by `name`, or nothing if it does not exist.
pub fn find(store: &VarStore, name: &Vec<u8>) -> (r: Option<Variable>)
    ensures
        match model_lookup(store.model(), name@) {
            Option::Some(m) => has_nul(name@) && r is None || !has_nul(name@) && (match m {
                VarModel::Scalar(b) => r matches Some(Variable::Str(s)) && s@ == b,
                VarModel::Indexed(items) => r matches Some(Variable::Array(vs)) && vs.deep_view()
                    == values_of(items),
                VarModel::Assoc(items) => r matches Some(Variable::Assoc(ps)) && kv_view(ps@)
                    == items,
            }),
            Option::None => r is None,
        },
{
    match find_raw(store, name) {
        Some(v) => Some(v.get(store.layout())),
        None => None,
    }
}

/// Returns the string value of the shell variable referenced by `name`,
/// or nothing if it does not exist or holds an array of either kind.
pub fn find_as_string(store: &VarStore, name: &Vec<u8>) -> (r: Option<Vec<u8>>)
    ensures
        match model_lookup(store.model(), name@) {
            Option::Some(VarModel::Scalar(b)) => has_nul(name@) && r is None || !has_nul(name@) && (
            r matches Some(s) && s@ == b),
            _ => r is None,
        },
{
    match find_raw(store, name) {
        Some(v) => match v.as_str() {
            Some(s) => Some(s.clone()),
            None => None,
        },
        None => None,
    }
}

/// Sets the shell variable referenced by `name` to a scalar string.
/// The name must pass the host's identifier-legality rule and the value
/// must not embed a terminator byte; whatever the variable held before,
/// it holds the scalar afterwards.
pub fn set(store: &mut VarStore, name: &Vec<u8>, value: &Vec<u8>) -> (r: Result<
    (),
    VariableError,
>)
    ensures
        final(store).layout_spec() == old(store).layout_spec(),
        has_nul(name@) ==> r == Err::<(), VariableError>(VariableError::InvalidName) && final(store).model() == old(store).model(),
        !has_nul(name@) && has_nul(value@) ==> r == Err::<(), VariableError>(
            VariableError::InvalidValue,
        ) && final(store).model() == old(store).model(),
        !has_nul(name@) && !has_nul(value@) && !is_legal_identifier(name@) ==> r == Err::<
            (),
            VariableError,
        >(VariableError::InvalidName) && final(store).model() == old(store).model(),
        !has_nul(name@) && !has_nul(value@) && is_legal_identifier(name@) ==> r == Ok::<
            (),
            VariableError,
        >(()) && final(store).model() == model_upsert(
            old(store).model(),
            name@,
            VarModel::Scalar(value@),
        ),
{
    if contains_nul(name) {
        return Err(VariableError::InvalidName);
    }
    if contains_nul(value) {
        return Err(VariableError::InvalidValue);
    }
    if !legal_identifier(name) {
        return Err(VariableError::InvalidName);
    }
    let var = RawVariable { payload: VarPayload::Scalar(value.clone()) };
    match store.position_of(name) {
        Some(i) => {
            proof {
                lemma_model_upsert_at(
                    store.model(),
                    name@,
                    var_model(var, store.layout_spec()),
                    i as int,
                );
            }
            store.set_at(i, name.clone(), var);
        },
        None => {
            proof {
                lemma_model_upsert_none(store.model(), name@, var_model(var, store.layout_spec()));
            }
            store.push_record(name.clone(), var);
        },
    }
    Ok(())
}

/// Sets the value of the shell variable referenced by `name`, with the
/// same rule as [`set`].
pub fn set_value(store: &mut VarStore, name: &Vec<u8>, value: &Vec<u8>) -> (r: Result<
    (),
    SetValueError,
>)
    ensures
        final(store).layout_spec() == old(store).layout_spec(),
        has_nul(name@) ==> r == Err::<(), SetValueError>(SetValueError::InvalidName) && final(store).model() == old(store).model(),
        !has_nul(name@) && has_nul(value@) ==> r == Err::<(), SetValueError>(
            SetValueError::InvalidValue,
        ) && final(store).model() == old(store).model(),
        !has_nul(name@) && !has_nul(value@) && !is_legal_identifier(name@) ==> r == Err::<
            (),
            SetValueError,
        >(SetValueError::InvalidName) && final(store).model() == old(store).model(),
        !has_nul(name@) && !has_nul(value@) && is_legal_identifier(name@) ==> r == Ok::<
            (),
            SetValueError,
        >(()) && final(store).model() == model_upsert(
            old(store).model(),
            name@,
            VarModel::Scalar(value@),
        ),
{
    match set(store, name, value) {
        Ok(()) => Ok(()),
        Err(VariableError::InvalidName) => Err(SetValueError::InvalidName),
        Err(_) => Err(SetValueError::InvalidValue),
    }
}

/// Unsets the shell variable referenced by `name`. Returns `true`
/// exactly when a variable was actually removed; afterwards no variable
/// of that name exists.
pub fn unset(store: &mut VarStore, name: &Vec<u8>) -> (r: bool)
    ensures
        final(store).layout_spec() == old(store).layout_spec(),
        has_nul(name@) ==> r == false && final(store).model() == old(store).model(),
        !has_nul(name@) ==> r == (model_lookup(old(store).model(), name@) is Some) && final(store).model() == model_remove(old(store).model(), name@),
{
    if contains_nul(name) {
        return false;
    }
    match store.position_of(name) {
        Some(i) => {
            proof {
                lemma_model_remove_at(store.model(), name@, i as int);
                lemma_model_lookup_at(store.model(), name@, i as int);
            }
            store.remove_at(i);
            true
        },
        None => {
            proof {
                lemma_model_remove_none(store.model(), name@);
                lemma_model_lookup_none(store.model(), name@);
            }
            false
        },
    }
}

/// Changes an element of the indexed array contained in the shell
/// variable referenced by `name`: the element at that index is replaced,
/// or inserted before the first larger index. A missing variable becomes
/// a one-element array; a scalar is converted, its old value standing at
/// index zero, as the host's bind primitive does; an associative
/// variable refuses the indexed update.
pub fn array_set(store: &mut VarStore, name: &Vec<u8>, index: i64, value: &Vec<u8>) -> (r: Result<
    (),
    VariableError,
>)
    ensures
        final(store).layout_spec() == old(store).layout_spec(),
        has_nul(name@) ==> r == Err::<(), VariableError>(VariableError::InvalidName) && final(store).model() == old(store).model(),
        !has_nul(name@) && has_nul(value@) ==> r == Err::<(), VariableError>(
            VariableError::InvalidValue,
        ) && final(store).model() == old(store).model(),
        !has_nul(name@) && !has_nul(value@) && !is_legal_identifier(name@) ==> r == Err::<
            (),
            VariableError,
        >(VariableError::InvalidName) && final(store).model() == old(store).model(),
        !has_nul(name@) && !has_nul(value@) && is_legal_identifier(name@) ==> match model_lookup(
            old(store).model(),
            name@,
        ) {
            Option::None => r == Ok::<(), VariableError>(()) && final(store).model()
                == model_upsert(
                old(store).model(),
                name@,
                VarModel::Indexed(seq![(index, value@)]),
            ),
            Option::Some(VarModel::Indexed(items)) => r == Ok::<(), VariableError>(()) && final(store).model() == model_upsert(
                old(store).model(),
                name@,
                VarModel::Indexed(upsert_pairs(items, index, value@)),
            ),
            Option::Some(VarModel::Scalar(b)) => r == Ok::<(), VariableError>(()) && final(store).model() == model_upsert(
                old(store).model(),
                name@,
                VarModel::Indexed(upsert_pairs(seq![(0i64, b)], index, value@)),
            ),
            Option::Some(VarModel::Assoc(_)) => r == Err::<(), VariableError>(
                VariableError::InvalidValue,
            ) && final(store).model() == old(store).model(),
        },
{
    if contains_nul(name) {
        return Err(VariableError::InvalidName);
    }
    if contains_nul(value) {
        return Err(VariableError::InvalidValue);
    }
    if !legal_identifier(name) {
        return Err(VariableError::InvalidName);
    }
    let ghost m0 = store.model();
    match store.position_of(name) {
        None => {
            proof {
                lemma_model_lookup_none(m0, name@);
            }
            let mut items: Vec<(i64, Vec<u8>)> = Vec::new();
            proof {
                assert(pairs_view(items@) =~= Seq::<(i64, Seq<u8>)>::empty());
            }
            upsert(&mut items, index, value.clone());
            proof {
                assert(pairs_view(items@) =~= seq![(index, value@)]);
            }
            let ring = ArrayRing::from_pairs(items);
            let var = RawVariable { payload: VarPayload::Indexed(ring) };
            proof {
                lemma_model_upsert_none(m0, name@, var_model(var, store.layout_spec()));
            }
            store.push_record(name.clone(), var);
            Ok(())
        },
        Some(i) => {
            proof {
                lemma_model_lookup_at(m0, name@, i as int);
            }
            let current: Result<Vec<(i64, Vec<u8>)>, VariableError> = match &store.vars[i].1.payload {
                VarPayload::Indexed(ring) => Ok(array_items(ring, store.layout)),
                VarPayload::Scalar(b) => {
                    let mut v: Vec<(i64, Vec<u8>)> = Vec::new();
                    v.push((0, b.clone()));
                    proof {
                        assert(pairs_view(v@) =~= seq![(0i64, b@)]);
                    }
                    Ok(v)
                },
                VarPayload::Assoc(_) => Err(VariableError::InvalidValue),
            };
            match current {
                Err(e) => Err(e),
                Ok(mut items) => {
                    upsert(&mut items, index, value.clone());
                    let ring = ArrayRing::from_pairs(items);
                    let var = RawVariable { payload: VarPayload::Indexed(ring) };
                    proof {
                        lemma_model_upsert_at(m0, name@, var_model(var, store.layout_spec()), i as int);
                    }
                    store.set_at(i, name.clone(), var);
                    Ok(())
                },
            }
        },
    }
}

/// Returns a copy of the value at an index of the indexed array
/// contained in the shell variable referenced by `name`, or nothing if
/// the variable is missing, is not an indexed array, or has no element
/// at that index.
pub fn array_get(store: &VarStore, name: &Vec<u8>, index: i64) -> (r: Option<Vec<u8>>)
    ensures
        match model_lookup(store.model(), name@) {
            Option::Some(VarModel::Indexed(items)) => if has_nul(name@) {
                r is None
            } else {
                match pair_lookup(items, index) {
                    Option::Some(v) => r matches Some(x) && x@ == v,
                    Option::None => r is None,
                }
            },
            _ => r is None,
        },
{
    match find_raw(store, name) {
        Some(v) => match &v.payload {
            VarPayload::Indexed(ring) => {
                let items = array_items(ring, store.layout());
                pair_get(&items, index)
            },
            _ => None,
        },
        None => None,
    }
}

/// Changes an element of the associative array contained in the shell
/// variable referenced by `name`: the pair with exactly that key is
/// replaced, or a new pair is added. A missing variable becomes a
/// one-pair associative array; a variable of any other kind refuses the
/// update.
pub fn assoc_set(store: &mut VarStore, name: &Vec<u8>, key: &Vec<u8>, value: &Vec<u8>) -> (r:
    Result<(), VariableError>)
    ensures
        final(store).layout_spec() == old(store).layout_spec(),
        has_nul(name@) ==> r == Err::<(), VariableError>(VariableError::InvalidName) && final(store).model() == old(store).model(),
        !has_nul(name@) && (has_nul(key@) || has_nul(value@)) ==> r == Err::<(), VariableError>(
            VariableError::InvalidValue,
        ) && final(store).model() == old(store).model(),
        !has_nul(name@) && !has_nul(key@) && !has_nul(value@) && !is_legal_identifier(name@) ==> r
            == Err::<(), VariableError>(VariableError::InvalidName) && final(store).model() == old(store).model(),
        !has_nul(name@) && !has_nul(key@) && !has_nul(value@) && is_legal_identifier(name@)
            ==> match model_lookup(old(store).model(), name@) {
            Option::None => r == Ok::<(), VariableError>(()) && final(store).model()
                == model_upsert(old(store).model(), name@, VarModel::Assoc(seq![(key@, value@)])),
            Option::Some(VarModel::Assoc(items)) => r == Ok::<(), VariableError>(()) && final(store).model() == model_upsert(
                old(store).model(),
                name@,
                VarModel::Assoc(assoc_upsert_items(items, key@, value@)),
            ),
            Option::Some(_) => r == Err::<(), VariableError>(VariableError::NotAssocArray)
                && final(store).model() == old(store).model(),
        },
{
    if contains_nul(name) {
        return Err(VariableError::InvalidName);
    }
    if contains_nul(key) {
        return Err(VariableError::InvalidValue);
    }
    if contains_nul(value) {
        return Err(VariableError::InvalidValue);
    }
    if !legal_identifier(name) {
        return Err(VariableError::InvalidName);
    }
    let ghost m0 = store.model();
    match store.position_of(name) {
        None => {
            proof {
                lemma_model_lookup_none(m0, name@);
            }
            let mut items: Vec<(Vec<u8>, Vec<u8>)> = Vec::new();
            proof {
                assert(kv_view(items@) =~= Seq::<(Seq<u8>, Seq<u8>)>::empty());
            }
            assoc_upsert(&mut items, key.clone(), value.clone());
            proof {
                assert(kv_view(items@) =~= seq![(key@, value@)]);
            }
            let table = BucketTable::from_items(items);
            let var = RawVariable { payload: VarPayload::Assoc(table) };
            proof {
                lemma_model_upsert_none(m0, name@, var_model(var, store.layout_spec()));
            }
            store.push_record(name.clone(), var);
            Ok(())
        },
        Some(i) => {
            proof {
                lemma_model_lookup_at(m0, name@, i as int);
            }
            let current: Result<Vec<(Vec<u8>, Vec<u8>)>, VariableError> = match &store.vars[i].1.payload {
                VarPayload::Assoc(t) => Ok(assoc_items(t)),
                _ => Err(VariableError::NotAssocArray),
            };
            match current {
                Err(e) => Err(e),
                Ok(mut items) => {
                    assoc_upsert(&mut items, key.clone(), value.clone());
                    let table = BucketTable::from_items(items);
                    let var = RawVariable { payload: VarPayload::Assoc(table) };
                    proof {
                        lemma_model_upsert_at(m0, name@, var_model(var, store.layout_spec()), i as int);
                    }
                    store.set_at(i, name.clone(), var);
                    Ok(())
                },
            }
        },
    }
}

/// Returns a copy of the value for a key of the associative array
/// contained in the shell variable referenced by `name`, by the host's
/// prefix comparison, or nothing if the variable is missing, is not an
/// associative array, or no pair matches.
pub fn assoc_get(store: &VarStore, name: &Vec<u8>, key: &Vec<u8>) -> (r: Option<Vec<u8>>)
    ensures
        match model_lookup(store.model(), name@) {
            Option::Some(VarModel::Assoc(items)) => if has_nul(name@) {
                r is None
            } else {
                match assoc_find(items, key@) {
                    Option::Some(v) => r matches Some(x) && x@ == v,
                    Option::None => r is None,
                }
            },
            _ => r is None,
        },
{
    match find_raw(store, name) {
        Some(v) => match &v.payload {
            VarPayload::Assoc(t) => {
                let items = assoc_items(t);
                find_prefix(&items, key)
            },
            _ => None,
        },
        None => None,
    }
}

/// Store validity: no variable name occurs twice.
pub open spec fn names_unique(e: Seq<(Seq<u8>, VarModel)>) -> bool {
    forall|i: int, j: int| 0 <= i < j < e.len() ==> (#[trigger] e[i]).0 != (#[trigger] e[j]).0
}

/// A name absent from a store, other than the bound one, is absent from
/// the store after the binding.
proof fn lemma_upsert_names_excluded(
    e: Seq<(Seq<u8>, VarModel)>,
    name: Seq<u8>,
    m: VarModel,
    x: Seq<u8>,
)
    requires
        x != name,
        forall|k: int| 0 <= k < e.len() ==> (#[trigger] e[k]).0 != x,
    ensures
        forall|k: int|
            0 <= k < model_upsert(e, name, m).len() ==> (#[trigger] model_upsert(e, name, m)[k]).0
                != x,
    decreases e.len(),
{
    if e.len() == 0 {
    } else if e[0].0 == name {
        assert(forall|k: int| 0 <= k < e.skip(1).len() ==> e.skip(1)[k] == #[trigger] e[k + 1]);
    } else {
        assert(forall|k: int| 0 <= k < e.skip(1).len() ==> e.skip(1)[k] == #[trigger] e[k + 1]);
        lemma_upsert_names_excluded(e.skip(1), name, m, x);
        let u = model_upsert(e, name, m);
        let v = model_upsert(e.skip(1), name, m);
        assert(u == seq![e[0]] + v);
        assert forall|k: int| 0 <= k < u.len() implies (#[trigger] u[k]).0 != x by {
            if k == 0 {
                assert(u[0] == e[0]);
            } else {
                assert(u[k] == v[k - 1]);
            }
        }
    }
}

/// A name absent from a store is absent after any removal.
proof fn lemma_remove_names_excluded(e: Seq<(Seq<u8>, VarModel)>, name: Seq<u8>, x: Seq<u8>)
    requires
        forall|k: int| 0 <= k < e.len() ==> (#[trigger] e[k]).0 != x,
    ensures
        forall|k: int|
            0 <= k < model_remove(e, name).len() ==> (#[trigger] model_remove(e, name)[k]).0 != x,
    decreases e.len(),
{
    if e.len() == 0 {
    } else if e[0].0 == name {
        assert(forall|k: int| 0 <= k < e.skip(1).len() ==> e.skip(1)[k] == #[trigger] e[k + 1]);
    } else {
        assert(forall|k: int| 0 <= k < e.skip(1).len() ==> e.skip(1)[k] == #[trigger] e[k + 1]);
        lemma_remove_names_excluded(e.skip(1), name, x);
        let u = model_remove(e, name);
        let v = model_remove(e.skip(1), name);
        assert(u == seq![e[0]] + v);
        assert forall|k: int| 0 <= k < u.len() implies (#[trigger] u[k]).0 != x by {
            if k == 0 {
                assert(u[0] == e[0]);
            } else {
                assert(u[k] == v[k - 1]);
            }
        }
    }
}

/// Binding a variable preserves store validity: names stay unique.
pub proof fn lemma_upsert_unique(e: Seq<(Seq<u8>, VarModel)>, name: Seq<u8>, m: VarModel)
    requires
        names_unique(e),
    ensures
        names_unique(model_upsert(e, name, m)),
    decreases e.len(),
{
    if e.len() == 0 {
    } else {
        assert(forall|k: int| 0 <= k < e.skip(1).len() ==> e.skip(1)[k] == #[trigger] e[k + 1]);
        if e[0].0 == name {
            let u = model_upsert(e, name, m);
            assert(u == seq![(name, m)] + e.skip(1));
            assert forall|i: int, j: int|
                0 <= i < j < u.len() implies (#[trigger] u[i]).0 != (#[trigger] u[j]).0 by {
                if i == 0 {
                    assert(u[j] == e[j]);
                    assert(u[0].0 == e[0].0);
                } else {
                    assert(u[i] == e[i]);
                    assert(u[j] == e[j]);
                }
            }
        } else {
            lemma_upsert_unique(e.skip(1), name, m);
            lemma_upsert_names_excluded(e.skip(1), name, m, e[0].0);
            let u = model_upsert(e, name, m);
            let v = model_upsert(e.skip(1), name, m);
            assert(u == seq![e[0]] + v);
            assert forall|i: int, j: int|
                0 <= i < j < u.len() implies (#[trigger] u[i]).0 != (#[trigger] u[j]).0 by {
                if i == 0 {
                    assert(u[0] == e[0]);
                    assert(u[j] == v[j - 1]);
                } else {
                    assert(u[i] == v[i - 1]);
                    assert(u[j] == v[j - 1]);
                }
            }
        }
    }
}

/// Unbinding a variable preserves store validity: names stay unique.
pub proof fn lemma_remove_unique(e: Seq<(Seq<u8>, VarModel)>, name: Seq<u8>)
    requires
        names_unique(e),
    ensures
        names_unique(model_remove(e, name)),
    decreases e.len(),
{
    if e.len() == 0 {
    } else {
        assert(forall|k: int| 0 <= k < e.skip(1).len() ==> e.skip(1)[k] == #[trigger] e[k + 1]);
        if e[0].0 == name {
        } else {
            lemma_remove_unique(e.skip(1), name);
            lemma_remove_names_excluded(e.skip(1), name, e[0].0);
            let u = model_remove(e, name);
            let v = model_remove(e.skip(1), name);
            assert(u == seq![e[0]] + v);
            assert forall|i: int, j: int|
                0 <= i < j < u.len() implies (#[trigger] u[i]).0 != (#[trigger] u[j]).0 by {
                if i == 0 {
                    assert(u[0] == e[0]);
                    assert(u[j] == v[j - 1]);
                } else {
                    assert(u[i] == v[i - 1]);
                    assert(u[j] == v[j - 1]);
                }
            }
        }
    }
}

/// Binding then looking up finds exactly what was bound, whether or
/// not the name existed before.
pub proof fn lemma_set_then_find(e: Seq<(Seq<u8>, VarModel)>, name: Seq<u8>, m: VarModel)
    ensures
        model_lookup(model_upsert(e, name, m), name) == Option::Some(m),
    decreases e.len(),
{
    if e.len() == 0 {
        assert(model_upsert(e, name, m)[0] == (name, m));
    } else if e[0].0 == name {
        assert(model_upsert(e, name, m)[0] == (name, m));
    } else {
        lemma_set_then_find(e.skip(1), name, m);
        let u = model_upsert(e, name, m);
        assert(u == seq![e[0]] + model_upsert(e.skip(1), name, m));
        assert(u[0] == e[0]);
        assert(u.skip(1) =~= model_upsert(e.skip(1), name, m));
    }
}

/// In a valid store, unsetting really removes: after the removal a
/// lookup of the name finds nothing, whether or not the variable
/// existed.
pub proof fn lemma_unset_removes(e: Seq<(Seq<u8>, VarModel)>, name: Seq<u8>)
    requires
        names_unique(e),
    ensures
        model_lookup(model_remove(e, name), name) is None,
    decreases e.len(),
{
    if e.len() > 0 {
        assert(forall|j: int| 0 <= j < e.skip(1).len() ==> e.skip(1)[j] == #[trigger] e[j + 1]);
        if e[0].0 == name {
            assert(forall|j: int|
                0 <= j < e.skip(1).len() ==> (#[trigger] e.skip(1)[j]).0 != name);
            lemma_model_lookup_none(e.skip(1), name);
        } else {
            lemma_unset_removes(e.skip(1), name);
            let rem = seq![e[0]] + model_remove(e.skip(1), name);
            assert(model_remove(e, name) == rem);
            assert(rem[0] == e[0]);
            assert(rem.skip(1) =~= model_remove(e.skip(1), name));
        }
    }
}

} // verus!
