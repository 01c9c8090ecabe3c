//! One run over a document: ingest, tally and select.
use vstd::prelude::*;
use crate::record::{
    DecodeDiagnostic, RawDocument, Service, entries_of, ingest, skipped_entries, valid_services,
};
use crate::select::{lemma_ranked_members, matches_predicate, select, selection, filtered};
use crate::stats::{
    Happiness, HappinessTally, happiness_of, happiness_tally, lemma_unrecognized_not_scored,
    score_sum, scored_count, unscored_count,
};

verus! {

/// What a run hands to presentation.
pub struct Analysis {
    /// Exposure of every decoded unit, in input order, as binary64 bits.
    pub exposures: Vec<u64>,
    /// Happiness scores of every decoded unit.
    pub happiness: HappinessTally,
    /// The selected units, ranked.
    pub selected: Vec<Service>,
    /// One report per skipped entry.
    pub diagnostics: Vec<DecodeDiagnostic>,
}

/// The exposure of each unit, in order.
pub open spec fn exposure_seq(s: Seq<Service>) -> Seq<u64> {
    s.map_values(|x: Service| x.exposure)
}

/// The exposure of each unit, in order.
pub fn exposures_of(services: &Vec<Service>) -> (r: Vec<u64>)
    ensures
        r@ == exposure_seq(services@),
{
    let mut out: Vec<u64> = Vec::new();
    let mut i: usize = 0;
    while i < services.len()
        invariant
            i <= services@.len(),
            out@ == exposure_seq(services@.take(i as int)),
        decreases services@.len() - i,
    {
        proof {
            assert(exposure_seq(services@.take(i + 1)) =~= exposure_seq(services@.take(i as int)).push(
                services@[i as int].exposure,
            ));
        }
        out.push(services[i].exposure);
        i = i + 1;
    }
    proof {
        assert(services@.take(services@.len() as int) =~= services@);
    }
    out
}

/// Runs the whole pipeline over a document: decodes its entries, tallies
/// every decoded unit, and selects those whose label is `predicate` (all
/// when none is given), ranked by exposure, at most `top_n` of them.
pub fn analyze(doc: RawDocument, predicate: &Option<String>, top_n: Option<usize>) -> (r: Analysis)
    ensures
        r.exposures@ == exposure_seq(valid_services(entries_of(doc))),
        r.happiness.total == score_sum(valid_services(entries_of(doc))),
        r.happiness.count == scored_count(valid_services(entries_of(doc))),
        r.happiness.unmatched == unscored_count(valid_services(entries_of(doc))),
        r.selected@ == selection(valid_services(entries_of(doc)), *predicate, top_n),
        r.diagnostics@ == skipped_entries(entries_of(doc)),
{
    let batch = ingest(doc);
    let exposures = exposures_of(&batch.services);
    let happiness = happiness_tally(&batch.services);
    let selected = select(batch.services, predicate, top_n);
    Analysis { exposures, happiness, selected, diagnostics: batch.diagnostics }
}

/// A unit whose happiness symbol is not recognized is left out of the
/// happiness average, yet still selected whenever its label matches.
pub proof fn lemma_unrecognized_symbol_still_selected(s: Seq<Service>, i: int, p: Option<String>)
    requires
        0 <= i < s.len(),
        happiness_of(s[i].happy@) == Happiness::Unrecognized,
    ensures
        score_sum(s) == score_sum(s.remove(i)),
        scored_count(s) == scored_count(s.remove(i)),
        matches_predicate(s[i], p) ==> selection(s, p, None).contains(s[i]),
{
    lemma_unrecognized_not_scored(s, i);
    if matches_predicate(s[i], p) {
        s.lemma_filter_contains(|x: Service| matches_predicate(x, p), i);
        lemma_ranked_members(filtered(s, p), s[i]);
    }
}

} // verus!
