//! Audited units, their raw form, and the all-or-nothing decoding between them.
use vstd::prelude::*;
use crate::exposure::{is_finite, is_finite_bits};

verus! {

/// The exposure field of a raw entry, as found on the wire.
pub enum ExposureField {
    /// Missing, or neither a number nor a string.
    Absent,
    /// A native number, as the bits of its binary64 value.
    Number(u64),
    /// A string: the bits of the number it reads as, if it reads as one.
    Text(Option<u64>),
}

/// One raw entry: each field present only when it has the expected kind.
pub struct RawEntry {
    pub unit: Option<String>,
    pub exposure: ExposureField,
    pub predicate: Option<String>,
    pub happy: Option<String>,
}

/// The top level of the analyzer's output.
pub enum RawDocument {
    /// A sequence of entries.
    Entries(Vec<RawEntry>),
    /// Anything else; it holds no entries.
    Other,
}

/// One audited unit.
pub struct Service {
    /// Name of the unit.
    pub unit: String,
    /// Exposure score, as the bits of a finite binary64 value.
    pub exposure: u64,
    /// Security label, kept verbatim.
    pub predicate: String,
    /// Happiness symbol, kept verbatim.
    pub happy: String,
}

/// Why an entry was skipped: the first field, in wire order, that failed.
#[derive(Clone, Copy, Debug, PartialEq, Eq, Structural)]
pub enum DecodeError {
    MissingUnit,
    MissingExposure,
    NonFiniteExposure,
    MissingPredicate,
    MissingHappy,
}

/// A skipped entry: its position in the input and the reason.
#[derive(Clone, Copy, Debug, PartialEq, Eq, Structural)]
pub struct DecodeDiagnostic {
    pub index: usize,
    pub reason: DecodeError,
}

/// The outcome of ingesting a document.
pub struct Batch {
    /// Decoded units, in input order.
    pub services: Vec<Service>,
    /// One diagnostic per skipped entry, in input order.
    pub diagnostics: Vec<DecodeDiagnostic>,
}

/// The number an exposure field carries: a native number is taken as it is,
/// a string only when it reads as a number.
pub open spec fn exposure_value(f: ExposureField) -> Option<u64> {
    match f {
        ExposureField::Number(b) => Some(b),
        ExposureField::Text(Some(b)) => Some(b),
        _ => None,
    }
}

/// Decoding one entry: all four fields present and the exposure finite, or
/// the first failing field.
pub open spec fn decode_spec(e: RawEntry) -> Result<Service, DecodeError> {
    if e.unit.is_none() {
        Err(DecodeError::MissingUnit)
    } else if exposure_value(e.exposure).is_none() {
        Err(DecodeError::MissingExposure)
    } else if !is_finite(exposure_value(e.exposure).unwrap()) {
        Err(DecodeError::NonFiniteExposure)
    } else if e.predicate.is_none() {
        Err(DecodeError::MissingPredicate)
    } else if e.happy.is_none() {
        Err(DecodeError::MissingHappy)
    } else {
        Ok(
            Service {
                unit: e.unit.unwrap(),
                exposure: exposure_value(e.exposure).unwrap(),
                predicate: e.predicate.unwrap(),
                happy: e.happy.unwrap(),
            },
        )
    }
}

/// The units that decode, in input order.
pub open spec fn valid_services(s: Seq<RawEntry>) -> Seq<Service>
    decreases s.len(),
{
    if s.len() == 0 {
        Seq::empty()
    } else {
        let rest = valid_services(s.drop_last());
        match decode_spec(s.last()) {
            Ok(v) => rest.push(v),
            Err(_) => rest,
        }
    }
}

/// One diagnostic for each entry that does not decode, in input order.
pub open spec fn skipped_entries(s: Seq<RawEntry>) -> Seq<DecodeDiagnostic>
    decreases s.len(),
{
    if s.len() == 0 {
        Seq::empty()
    } else {
        let rest = skipped_entries(s.drop_last());
        match decode_spec(s.last()) {
            Ok(_) => rest,
            Err(k) => rest.push(DecodeDiagnostic { index: (s.len() - 1) as usize, reason: k }),
        }
    }
}

/// The entries a document holds.
pub open spec fn entries_of(d: RawDocument) -> Seq<RawEntry> {
    match d {
        RawDocument::Entries(v) => v@,
        RawDocument::Other => Seq::empty(),
    }
}

proof fn lemma_valid_services_add(a: Seq<RawEntry>, b: Seq<RawEntry>)
    ensures
        valid_services(a + b) == valid_services(a) + valid_services(b),
    decreases b.len(),
{
    if b.len() == 0 {
        assert(a + b =~= a);
        assert(valid_services(a) + valid_services(b) =~= valid_services(a));
    } else {
        lemma_valid_services_add(a, b.drop_last());
        assert((a + b).drop_last() =~= a + b.drop_last());
        assert((a + b).last() == b.last());
        let v = valid_services(a);
        let w = valid_services(b.drop_last());
        match decode_spec(b.last()) {
            Ok(x) => {
                assert(v + w.push(x) =~= (v + w).push(x));
            },
            Err(_) => {},
        }
    }
}

proof fn lemma_valid_services_single(e: RawEntry)
    ensures
        valid_services(seq![e]) == match decode_spec(e) {
            Ok(x) => seq![x],
            Err(_) => Seq::<Service>::empty(),
        },
{
    assert(seq![e].drop_last() =~= Seq::<RawEntry>::empty());
    assert(seq![e].last() == e);
    assert(valid_services(Seq::<RawEntry>::empty()) == Seq::<Service>::empty());
    if decode_spec(e) is Ok {
        assert(Seq::<Service>::empty().push(decode_spec(e)->Ok_0) =~= seq![decode_spec(e)->Ok_0]);
    }
}

/// Every entry is accounted for once: it either decodes or is reported.
pub proof fn lemma_every_entry_accounted(s: Seq<RawEntry>)
    ensures
        valid_services(s).len() + skipped_entries(s).len() == s.len(),
    decreases s.len(),
{
    if s.len() > 0 {
        lemma_every_entry_accounted(s.drop_last());
    }
}

/// An entry without a label is skipped on its own: it does not decode, the
/// batch decodes to the same units as the batch without it, and every other
/// entry that decodes is still ingested.
pub proof fn lemma_skipped_entry_isolated(s: Seq<RawEntry>, i: int)
    requires
        0 <= i < s.len(),
        s[i].predicate is None,
    ensures
        decode_spec(s[i]) is Err,
        valid_services(s) == valid_services(s.remove(i)),
        forall|j: int|
            0 <= j < s.len() && #[trigger] decode_spec(s[j]) is Ok ==> valid_services(s).contains(
                decode_spec(s[j])->Ok_0,
            ),
{
    let a = s.take(i);
    let c = s.skip(i + 1);
    assert(s =~= a + seq![s[i]] + c);
    assert(s.remove(i) =~= a + c);
    lemma_valid_services_add(a + seq![s[i]], c);
    lemma_valid_services_add(a, seq![s[i]]);
    lemma_valid_services_add(a, c);
    lemma_valid_services_single(s[i]);
    assert(valid_services(a) + Seq::<Service>::empty() =~= valid_services(a));
    assert forall|j: int|
        0 <= j < s.len() && #[trigger] decode_spec(s[j]) is Ok implies valid_services(s).contains(
            decode_spec(s[j])->Ok_0,
        ) by {
        let x = decode_spec(s[j])->Ok_0;
        let a2 = s.take(j);
        let c2 = s.skip(j + 1);
        assert(s =~= a2 + seq![s[j]] + c2);
        lemma_valid_services_add(a2 + seq![s[j]], c2);
        lemma_valid_services_add(a2, seq![s[j]]);
        lemma_valid_services_single(s[j]);
        let v = valid_services(s);
        assert(v[valid_services(a2).len() as int] == x);
    }
}

/// A number given as a string decodes exactly as the same number given
/// natively.
pub proof fn lemma_exposure_text_as_number(
    unit: Option<String>,
    predicate: Option<String>,
    happy: Option<String>,
    bits: u64,
)
    ensures
        decode_spec(RawEntry { unit, exposure: ExposureField::Number(bits), predicate, happy })
            == decode_spec(
            RawEntry { unit, exposure: ExposureField::Text(Some(bits)), predicate, happy },
        ),
{
}

/// The number an exposure field carries.
pub fn exposure_of(f: ExposureField) -> (r: Option<u64>)
    ensures
        r == exposure_value(f),
{
    match f {
        ExposureField::Number(b) => Some(b),
        ExposureField::Text(t) => t,
        ExposureField::Absent => None,
    }
}

/// Decodes one entry, all or nothing.
pub fn decode_entry(e: RawEntry) -> (r: Result<Service, DecodeError>)
    ensures
        r == decode_spec(e),
{
    let ghost g = e;
    let RawEntry { unit, exposure, predicate, happy } = e;
    let unit = match unit {
        Some(u) => u,
        None => return Err(DecodeError::MissingUnit),
    };
    let bits = match exposure_of(exposure) {
        Some(b) => b,
        None => return Err(DecodeError::MissingExposure),
    };
    if !is_finite_bits(bits) {
        return Err(DecodeError::NonFiniteExposure);
    }
    let predicate = match predicate {
        Some(p) => p,
        None => return Err(DecodeError::MissingPredicate),
    };
    let happy = match happy {
        Some(h) => h,
        None => return Err(DecodeError::MissingHappy),
    };
    proof {
        assert(g.unit == Some(unit));
    }
    Ok(Service { unit, exposure: bits, predicate, happy })
}

/// Decodes every entry of a document independently, keeping the units that
/// decode and a diagnostic for each one that does not. A top level that is
/// not a sequence holds no entries.
pub fn ingest(doc: RawDocument) -> (r: Batch)
    ensures
        r.services@ == valid_services(entries_of(doc)),
        r.diagnostics@ == skipped_entries(entries_of(doc)),
{
    let ghost all = entries_of(doc);
    let mut entries = match doc {
        RawDocument::Entries(v) => v,
        RawDocument::Other => Vec::new(),
    };
    let mut services: Vec<Service> = Vec::new();
    let mut diagnostics: Vec<DecodeDiagnostic> = Vec::new();
    let n: usize = entries.len();
    let mut i: usize = 0;
    while i < n
        invariant
            n == all.len(),
            i <= n,
            entries@ == all.skip(i as int),
            services@ == valid_services(all.take(i as int)),
            diagnostics@ == skipped_entries(all.take(i as int)),
        decreases n - i,
    {
        let e = entries.remove(0);
        proof {
            assert(all.take(i + 1).drop_last() =~= all.take(i as int));
            assert(all.take(i + 1).last() == e);
            assert(all.skip(i as int).remove(0) =~= all.skip(i + 1));
        }
        match decode_entry(e) {
            Ok(s) => services.push(s),
            Err(k) => diagnostics.push(DecodeDiagnostic { index: i, reason: k }),
        }
        i = i + 1;
    }
    proof {
        assert(all.take(n as int) =~= all);
    }
    Batch { services, diagnostics }
}

} // verus!
