//! The catalogue of ranking signals.
//!
//! Each signal is a feature of a document; its ordinal doubles as a
//! dense array index for the per-query coefficient table. Every signal
//! except BM25 is computable before the query from a fast field.
//! Coefficients and field boosts are fixed-point numbers in thousandths,
//! so a coefficient of `1000` weighs a signal by one.

use vstd::prelude::*;
use crate::fastfield::FastField;

verus! {

/// A ranking signal.
#[derive(Clone, Copy, Debug, PartialEq, Eq, Structural)]
pub enum Signal {
    Bm25,
    HostCentrality,
    PageCentrality,
    IsHomepage,
    FetchTimeMs,
    UpdateTimestamp,
    NumTrackers,
    Region,
}

/// The number of signals.
pub const NUM_SIGNALS: usize = 8;

/// The ordinal of a signal, used as a dense array index.
pub open spec fn signal_ordinal(s: Signal) -> int {
    match s {
        Signal::Bm25 => 0,
        Signal::HostCentrality => 1,
        Signal::PageCentrality => 2,
        Signal::IsHomepage => 3,
        Signal::FetchTimeMs => 4,
        Signal::UpdateTimestamp => 5,
        Signal::NumTrackers => 6,
        Signal::Region => 7,
    }
}

/// The default coefficient of a signal, in thousandths.
pub open spec fn spec_default_coefficient(s: Signal) -> u64 {
    match s {
        Signal::Bm25 => 1_000,
        Signal::HostCentrality => 2_048_000,
        Signal::PageCentrality => 4_096_000,
        Signal::IsHomepage => 100,
        Signal::FetchTimeMs => 100,
        Signal::UpdateTimestamp => 80_000,
        Signal::NumTrackers => 20_000,
        Signal::Region => 60_000,
    }
}

impl Signal {
    /// All signals, in ordinal order.
    pub fn all() -> (v: Vec<Signal>)
        ensures
            v@.len() == NUM_SIGNALS,
            forall|k: int| #![trigger v@[k]] 0 <= k < v@.len() ==> signal_ordinal(v@[k]) == k,
    {
        let v = vec![
            Signal::Bm25,
            Signal::HostCentrality,
            Signal::PageCentrality,
            Signal::IsHomepage,
            Signal::FetchTimeMs,
            Signal::UpdateTimestamp,
            Signal::NumTrackers,
            Signal::Region,
        ];
        proof {
            assert forall|k: int| 0 <= k < v@.len() implies signal_ordinal(v@[k]) == k by {
                assert(v@.len() == 8);
            }
        }
        v
    }

    /// The signal's dense index.
    pub fn ordinal(&self) -> (r: usize)
        ensures
            r == signal_ordinal(*self),
            r < NUM_SIGNALS,
    {
        match self {
            Signal::Bm25 => 0,
            Signal::HostCentrality => 1,
            Signal::PageCentrality => 2,
            Signal::IsHomepage => 3,
            Signal::FetchTimeMs => 4,
            Signal::UpdateTimestamp => 5,
            Signal::NumTrackers => 6,
            Signal::Region => 7,
        }
    }

    /// Every signal except BM25 can be computed before the query runs.
    pub fn is_computable_before_search(&self) -> (r: bool)
        ensures
            r == !(*self is Bm25),
    {
        match self {
            Signal::Bm25 => false,
            _ => true,
        }
    }

    /// The coefficient a signal carries when the query does not override
    /// it, in thousandths.
    pub fn default_coefficient(&self) -> (r: u64)
        ensures
            r == spec_default_coefficient(*self),
    {
        match self {
            Signal::Bm25 => 1_000,
            Signal::HostCentrality => 2_048_000,
            Signal::PageCentrality => 4_096_000,
            Signal::IsHomepage => 100,
            Signal::FetchTimeMs => 100,
            Signal::UpdateTimestamp => 80_000,
            Signal::NumTrackers => 20_000,
            Signal::Region => 60_000,
        }
    }

    /// The signal a query alteration may name: only `bm25` and
    /// `host_centrality` are recognized; other names are ignored.
    pub fn from_string(name: String) -> (r: Option<Signal>)
        ensures
            r == if name@ == "bm25"@ {
                Some(Signal::Bm25)
            } else if name@ == "host_centrality"@ {
                Some(Signal::HostCentrality)
            } else {
                None::<Signal>
            },
    {
        if name.eq(&"bm25".to_owned()) {
            Some(Signal::Bm25)
        } else if name.eq(&"host_centrality".to_owned()) {
            Some(Signal::HostCentrality)
        } else {
            None
        }
    }

    /// The fast field a signal reads, if any; BM25 alone has none.
    pub fn as_fastfield(&self) -> (r: Option<FastField>)
        ensures
            r == match *self {
                Signal::Bm25 => None::<FastField>,
                Signal::HostCentrality => Some(FastField::HostCentrality),
                Signal::PageCentrality => Some(FastField::PageCentrality),
                Signal::IsHomepage => Some(FastField::IsHomepage),
                Signal::FetchTimeMs => Some(FastField::FetchTimeMs),
                Signal::UpdateTimestamp => Some(FastField::LastUpdated),
                Signal::NumTrackers => Some(FastField::NumTrackers),
                Signal::Region => Some(FastField::Region),
            },
    {
        match self {
            Signal::Bm25 => None,
            Signal::HostCentrality => Some(FastField::HostCentrality),
            Signal::PageCentrality => Some(FastField::PageCentrality),
            Signal::IsHomepage => Some(FastField::IsHomepage),
            Signal::FetchTimeMs => Some(FastField::FetchTimeMs),
            Signal::UpdateTimestamp => Some(FastField::LastUpdated),
            Signal::NumTrackers => Some(FastField::NumTrackers),
            Signal::Region => Some(FastField::Region),
        }
    }
}

/// Dense per-signal coefficient overrides, in thousandths; unset
/// positions fall back to the signal's default.
#[derive(Clone, Debug)]
pub struct SignalCoefficient {
    overrides: Vec<Option<u64>>,
}

impl SignalCoefficient {
    /// The override stored for a signal, if any.
    pub closed spec fn override_of(self, s: Signal) -> Option<u64> {
        if signal_ordinal(s) < self.overrides@.len() {
            self.overrides@[signal_ordinal(s)]
        } else {
            None
        }
    }

    /// Builds the coefficient table from `(signal, thousandths)` pairs;
    /// later pairs win.
    pub fn new(coefficients: Vec<(Signal, u64)>) -> (r: Self)
        ensures
            forall|s: Signal| #![trigger r.override_of(s)] r.override_of(s) == spec_override(
                coefficients@,
                s,
            ),
    {
        let mut overrides: Vec<Option<u64>> = Vec::new();
        let mut k: usize = 0;
        while k < NUM_SIGNALS
            invariant
                k <= NUM_SIGNALS,
                overrides@.len() == k,
                forall|j: int| #![trigger overrides@[j]] 0 <= j < k
                    ==> overrides@[j] == None::<u64>,
            decreases NUM_SIGNALS - k,
        {
            overrides.push(None);
            k = k + 1;
        }
        let mut i: usize = 0;
        let mut r = SignalCoefficient { overrides };
        proof {
            assert forall|s: Signal| r.override_of(s) == spec_override(
                coefficients@.take(0),
                s,
            ) by {
                assert(signal_ordinal(s) < 8);
            }
        }
        while i < coefficients.len()
            invariant
                i <= coefficients@.len(),
                r.overrides@.len() == NUM_SIGNALS,
                forall|s: Signal| #![trigger r.override_of(s)] r.override_of(s) == spec_override(
                    coefficients@.take(i as int),
                    s,
                ),
            decreases coefficients@.len() - i,
        {
            let (sig, value) = coefficients[i];
            let ord = sig.ordinal();
            let ghost pre = r;
            r.overrides.remove(ord);
            r.overrides.insert(ord, Some(value));
            proof {
                assert(coefficients@.take(i + 1).drop_last() =~= coefficients@.take(i as int));
                assert forall|s: Signal| #![trigger r.override_of(s)] r.override_of(s)
                    == spec_override(coefficients@.take(i + 1), s) by {
                    assert(signal_ordinal(s) < 8);
                    if signal_ordinal(s) == ord {
                    } else {
                        assert(r.override_of(s) == pre.override_of(s));
                    }
                }
            }
            i = i + 1;
        }
        proof {
            assert(coefficients@.take(coefficients@.len() as int) =~= coefficients@);
        }
        r
    }

    /// The effective coefficient of a signal, in thousandths: its
    /// override, or the signal's default.
    pub fn get(&self, signal: &Signal) -> (r: u64)
        ensures
            r == match self.override_of(*signal) {
                Some(v) => v,
                None => spec_default_coefficient(*signal),
            },
    {
        let ord = signal.ordinal();
        if ord < self.overrides.len() {
            match self.overrides[ord] {
                Some(v) => v,
                None => signal.default_coefficient(),
            }
        } else {
            signal.default_coefficient()
        }
    }
}

/// A text field of the index schema whose term matches BM25 can weigh.
#[derive(Clone, Copy, Debug, PartialEq, Eq, Structural)]
pub enum TextField {
    Title,
    CleanBody,
    Url,
    Site,
    Domain,
}

/// The number of text fields.
pub const NUM_TEXT_FIELDS: usize = 5;

/// The ordinal of a text field, used as a dense array index.
pub open spec fn field_ordinal(f: TextField) -> int {
    match f {
        TextField::Title => 0,
        TextField::CleanBody => 1,
        TextField::Url => 2,
        TextField::Site => 3,
        TextField::Domain => 4,
    }
}

/// The static default boost of a text field, in thousandths: the
/// catalogue weighs title matches ten-fold and host-name matches
/// two-fold; body and URL text carry no static boost.
pub open spec fn spec_default_boost(f: TextField) -> Option<u64> {
    match f {
        TextField::Title => Some(10_000u64),
        TextField::CleanBody => None,
        TextField::Url => None,
        TextField::Site => Some(2_000u64),
        TextField::Domain => Some(2_000u64),
    }
}

impl TextField {
    /// The field's static default boost, in thousandths, if the
    /// catalogue gives it one.
    pub fn default_boost(&self) -> (r: Option<u64>)
        ensures
            r == spec_default_boost(*self),
    {
        match self {
            TextField::Title => Some(10_000),
            TextField::CleanBody => None,
            TextField::Url => None,
            TextField::Site => Some(2_000),
            TextField::Domain => Some(2_000),
        }
    }

    /// The field's dense index.
    pub fn ordinal(&self) -> (r: usize)
        ensures
            r == field_ordinal(*self),
            r < NUM_TEXT_FIELDS,
    {
        match self {
            TextField::Title => 0,
            TextField::CleanBody => 1,
            TextField::Url => 2,
            TextField::Site => 3,
            TextField::Domain => 4,
        }
    }
}

/// Dense per-field boost overrides, in thousandths; unset positions fall
/// back to the field's static default boost, or one (`1000`).
#[derive(Clone, Debug)]
pub struct FieldBoost {
    overrides: Vec<Option<u64>>,
}

impl FieldBoost {
    /// The override stored for a field, if any.
    pub closed spec fn override_of(self, f: TextField) -> Option<u64> {
        if field_ordinal(f) < self.overrides@.len() {
            self.overrides@[field_ordinal(f)]
        } else {
            None
        }
    }

    /// Builds the boost table from `(field, thousandths)` pairs; later
    /// pairs win.
    pub fn new(boosts: Vec<(TextField, u64)>) -> (r: Self)
        ensures
            forall|f: TextField| #![trigger r.override_of(f)] r.override_of(f)
                == spec_boost_override(boosts@, f),
    {
        let mut overrides: Vec<Option<u64>> = Vec::new();
        let mut k: usize = 0;
        while k < NUM_TEXT_FIELDS
            invariant
                k <= NUM_TEXT_FIELDS,
                overrides@.len() == k,
                forall|j: int| #![trigger overrides@[j]] 0 <= j < k
                    ==> overrides@[j] == None::<u64>,
            decreases NUM_TEXT_FIELDS - k,
        {
            overrides.push(None);
            k = k + 1;
        }
        let mut i: usize = 0;
        let mut r = FieldBoost { overrides };
        proof {
            assert forall|f: TextField| r.override_of(f) == spec_boost_override(
                boosts@.take(0),
                f,
            ) by {
                assert(field_ordinal(f) < 5);
            }
        }
        while i < boosts.len()
            invariant
                i <= boosts@.len(),
                r.overrides@.len() == NUM_TEXT_FIELDS,
                forall|f: TextField| #![trigger r.override_of(f)] r.override_of(f)
                    == spec_boost_override(boosts@.take(i as int), f),
            decreases boosts@.len() - i,
        {
            let (field, value) = boosts[i];
            let ord = field.ordinal();
            let ghost pre = r;
            r.overrides.remove(ord);
            r.overrides.insert(ord, Some(value));
            proof {
                assert(boosts@.take(i + 1).drop_last() =~= boosts@.take(i as int));
                assert forall|f: TextField| #![trigger r.override_of(f)] r.override_of(f)
                    == spec_boost_override(boosts@.take(i + 1), f) by {
                    assert(field_ordinal(f) < 5);
                    if field_ordinal(f) == ord {
                    } else {
                        assert(r.override_of(f) == pre.override_of(f));
                    }
                }
            }
            i = i + 1;
        }
        proof {
            assert(boosts@.take(boosts@.len() as int) =~= boosts@);
        }
        r
    }

    /// The effective boost of a field, in thousandths: its override,
    /// else the field's static default boost, else one.
    pub fn get(&self, field: &TextField) -> (r: u64)
        ensures
            r == match self.override_of(*field) {
                Some(v) => v,
                None => match spec_default_boost(*field) {
                    Some(d) => d,
                    None => 1000u64,
                },
            },
    {
        let fallback = match field.default_boost() {
            Some(d) => d,
            None => 1000,
        };
        let ord = field.ordinal();
        if ord < self.overrides.len() {
            match self.overrides[ord] {
                Some(v) => v,
                None => fallback,
            }
        } else {
            fallback
        }
    }
}

/// The override the pair list assigns to a field; later pairs win.
pub open spec fn spec_boost_override(pairs: Seq<(TextField, u64)>, f: TextField) -> Option<u64>
    decreases pairs.len(),
{
    if pairs.len() == 0 {
        None
    } else if pairs.last().0 == f {
        Some(pairs.last().1)
    } else {
        spec_boost_override(pairs.drop_last(), f)
    }
}

/// The override the pair list assigns to a signal; later pairs win.
pub open spec fn spec_override(pairs: Seq<(Signal, u64)>, s: Signal) -> Option<u64>
    decreases pairs.len(),
{
    if pairs.len() == 0 {
        None
    } else if pairs.last().0 == s {
        Some(pairs.last().1)
    } else {
        spec_override(pairs.drop_last(), s)
    }
}


/// The recognized signal alterations, in order: pairs whose name
/// [`Signal::from_string`] accepts, unknown names silently dropped.
pub open spec fn spec_recognized_signals(alts: Seq<(String, u64)>) -> Seq<(Signal, u64)>
    decreases alts.len(),
{
    if alts.len() == 0 {
        Seq::empty()
    } else {
        spec_recognized_signals(alts.drop_last()) + (if alts.last().0@ == "bm25"@ {
            seq![(Signal::Bm25, alts.last().1)]
        } else if alts.last().0@ == "host_centrality"@ {
            seq![(Signal::HostCentrality, alts.last().1)]
        } else {
            Seq::<(Signal, u64)>::empty()
        })
    }
}

/// Keeps the alterations that name a recognized signal, in order;
/// unknown names are silently dropped.
pub fn recognized_coefficients(alts: &Vec<(String, u64)>) -> (r: Vec<(Signal, u64)>)
    ensures
        r@ == spec_recognized_signals(alts@),
{
    let mut r: Vec<(Signal, u64)> = Vec::new();
    let mut i: usize = 0;
    while i < alts.len()
        invariant
            i <= alts@.len(),
            r@ =~= spec_recognized_signals(alts@.take(i as int)),
        decreases alts@.len() - i,
    {
        proof {
            assert(alts@.take(i + 1).drop_last() =~= alts@.take(i as int));
            assert(alts@.take(i + 1).last() == alts@[i as int]);
        }
        let name = alts[i].0.clone();
        match Signal::from_string(name) {
            Some(sig) => {
                r.push((sig, alts[i].1));
            }
            None => {}
        }
        proof {
            assert(r@ =~= spec_recognized_signals(alts@.take(i + 1)));
        }
        i = i + 1;
    }
    proof {
        assert(alts@.take(alts@.len() as int) =~= alts@);
    }
    r
}

/// The recognized field alterations, in order: pairs whose name
/// [`TextField::from_string`] accepts, unknown names silently dropped.
pub open spec fn spec_recognized_fields(alts: Seq<(String, u64)>) -> Seq<(TextField, u64)>
    decreases alts.len(),
{
    if alts.len() == 0 {
        Seq::empty()
    } else {
        spec_recognized_fields(alts.drop_last()) + (match spec_field_of_name(alts.last().0@) {
            Some(f) => seq![(f, alts.last().1)],
            None => Seq::<(TextField, u64)>::empty(),
        })
    }
}

/// The text field a name denotes, if any.
pub open spec fn spec_field_of_name(name: Seq<char>) -> Option<TextField> {
    if name == "title"@ {
        Some(TextField::Title)
    } else if name == "body"@ {
        Some(TextField::CleanBody)
    } else if name == "url"@ {
        Some(TextField::Url)
    } else if name == "site"@ {
        Some(TextField::Site)
    } else if name == "domain"@ {
        Some(TextField::Domain)
    } else {
        None
    }
}

impl TextField {
    /// The text field a query alteration may name; unknown names are
    /// ignored.
    pub fn from_string(name: String) -> (r: Option<TextField>)
        ensures
            r == spec_field_of_name(name@),
    {
        if name.eq(&"title".to_owned()) {
            Some(TextField::Title)
        } else if name.eq(&"body".to_owned()) {
            Some(TextField::CleanBody)
        } else if name.eq(&"url".to_owned()) {
            Some(TextField::Url)
        } else if name.eq(&"site".to_owned()) {
            Some(TextField::Site)
        } else if name.eq(&"domain".to_owned()) {
            Some(TextField::Domain)
        } else {
            None
        }
    }
}

/// Keeps the alterations that name a recognized text field, in order;
/// unknown names are silently dropped.
pub fn recognized_boosts(alts: &Vec<(String, u64)>) -> (r: Vec<(TextField, u64)>)
    ensures
        r@ == spec_recognized_fields(alts@),
{
    let mut r: Vec<(TextField, u64)> = Vec::new();
    let mut i: usize = 0;
    while i < alts.len()
        invariant
            i <= alts@.len(),
            r@ =~= spec_recognized_fields(alts@.take(i as int)),
        decreases alts@.len() - i,
    {
        proof {
            assert(alts@.take(i + 1).drop_last() =~= alts@.take(i as int));
            assert(alts@.take(i + 1).last() == alts@[i as int]);
        }
        let name = alts[i].0.clone();
        match TextField::from_string(name) {
            Some(f) => {
                r.push((f, alts[i].1));
            }
            None => {}
        }
        proof {
            assert(r@ =~= spec_recognized_fields(alts@.take(i + 1)));
        }
        i = i + 1;
    }
    proof {
        assert(alts@.take(alts@.len() as int) =~= alts@);
    }
    r
}

} // verus!
