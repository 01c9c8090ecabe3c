//! Happiness symbols and the integer tallies behind the batch averages.
use vstd::prelude::*;
use crate::record::Service;

verus! {

/// The closed set of happiness symbols, best first, with a fallback for any
/// other token.
#[derive(Clone, Copy, Debug, PartialEq, Eq, Structural)]
pub enum Happiness {
    Grinning,
    Smiling,
    Neutral,
    Frowning,
    Fearful,
    Unrecognized,
}

/// The symbol a token stands for.
pub open spec fn happiness_of(s: Seq<char>) -> Happiness {
    if s == seq!['\u{1F600}'] {
        Happiness::Grinning
    } else if s == seq!['\u{1F642}'] {
        Happiness::Smiling
    } else if s == seq!['\u{1F610}'] {
        Happiness::Neutral
    } else if s == seq!['\u{1F641}'] {
        Happiness::Frowning
    } else if s == seq!['\u{1F628}'] {
        Happiness::Fearful
    } else {
        Happiness::Unrecognized
    }
}

/// Satisfaction score on the 1 to 5 scale; none for an unrecognized token.
pub open spec fn score_of(h: Happiness) -> Option<nat> {
    match h {
        Happiness::Grinning => Some(5),
        Happiness::Smiling => Some(4),
        Happiness::Neutral => Some(3),
        Happiness::Frowning => Some(2),
        Happiness::Fearful => Some(1),
        Happiness::Unrecognized => None,
    }
}

/// The score of a unit's happiness symbol.
pub open spec fn service_score(s: Service) -> Option<nat> {
    score_of(happiness_of(s.happy@))
}

/// Sum of the scores of the units with a recognized symbol.
pub open spec fn score_sum(s: Seq<Service>) -> nat
    decreases s.len(),
{
    if s.len() == 0 {
        0
    } else {
        score_sum(s.drop_last()) + match service_score(s.last()) {
            Some(v) => v,
            None => 0,
        }
    }
}

/// Number of units with a recognized symbol.
pub open spec fn scored_count(s: Seq<Service>) -> nat
    decreases s.len(),
{
    if s.len() == 0 {
        0
    } else {
        scored_count(s.drop_last()) + if service_score(s.last()).is_some() {
            1nat
        } else {
            0nat
        }
    }
}

/// Number of units whose symbol is not recognized.
pub open spec fn unscored_count(s: Seq<Service>) -> nat
    decreases s.len(),
{
    if s.len() == 0 {
        0
    } else {
        unscored_count(s.drop_last()) + if service_score(s.last()).is_some() {
            0nat
        } else {
            1nat
        }
    }
}

/// What the happiness average is computed from.
#[derive(Clone, Copy, Debug, PartialEq, Eq, Structural)]
pub struct HappinessTally {
    /// Sum of the scores of the units with a recognized symbol.
    pub total: u128,
    /// Number of units with a recognized symbol.
    pub count: u64,
    /// Number of units whose symbol is not recognized.
    pub unmatched: u64,
}

impl Happiness {
    /// Reads a happiness token.
    pub fn from_symbol(s: &String) -> (r: Happiness)
        ensures
            r == happiness_of(s@),
    {
        proof {
            reveal_strlit("\u{1F600}");
            reveal_strlit("\u{1F642}");
            reveal_strlit("\u{1F610}");
            reveal_strlit("\u{1F641}");
            reveal_strlit("\u{1F628}");
            assert("\u{1F600}"@ =~= seq!['\u{1F600}']);
            assert("\u{1F642}"@ =~= seq!['\u{1F642}']);
            assert("\u{1F610}"@ =~= seq!['\u{1F610}']);
            assert("\u{1F641}"@ =~= seq!['\u{1F641}']);
            assert("\u{1F628}"@ =~= seq!['\u{1F628}']);
        }
        if *s == "\u{1F600}".to_owned() {
            Happiness::Grinning
        } else if *s == "\u{1F642}".to_owned() {
            Happiness::Smiling
        } else if *s == "\u{1F610}".to_owned() {
            Happiness::Neutral
        } else if *s == "\u{1F641}".to_owned() {
            Happiness::Frowning
        } else if *s == "\u{1F628}".to_owned() {
            Happiness::Fearful
        } else {
            Happiness::Unrecognized
        }
    }

    /// Satisfaction score, 5 for the best symbol down to 1.
    pub fn score(self) -> (r: Option<u64>)
        ensures
            r matches Some(v) ==> score_of(self) == Some(v as nat),
            r is None ==> score_of(self) is None,
    {
        match self {
            Happiness::Grinning => Some(5),
            Happiness::Smiling => Some(4),
            Happiness::Neutral => Some(3),
            Happiness::Frowning => Some(2),
            Happiness::Fearful => Some(1),
            Happiness::Unrecognized => None,
        }
    }
}

proof fn lemma_score_sum_bound(s: Seq<Service>)
    ensures
        score_sum(s) <= 5 * scored_count(s),
        scored_count(s) + unscored_count(s) == s.len(),
    decreases s.len(),
{
    if s.len() > 0 {
        lemma_score_sum_bound(s.drop_last());
    }
}

proof fn lemma_tally_add(a: Seq<Service>, b: Seq<Service>)
    ensures
        score_sum(a + b) == score_sum(a) + score_sum(b),
        scored_count(a + b) == scored_count(a) + scored_count(b),
        unscored_count(a + b) == unscored_count(a) + unscored_count(b),
    decreases b.len(),
{
    if b.len() == 0 {
        assert(a + b =~= a);
    } else {
        lemma_tally_add(a, b.drop_last());
        assert((a + b).drop_last() =~= a + b.drop_last());
        assert((a + b).last() == b.last());
    }
}

/// A unit whose happiness symbol is not recognized adds nothing to the
/// score total or to the count the average divides by; it is counted apart.
pub proof fn lemma_unrecognized_not_scored(s: Seq<Service>, i: int)
    requires
        0 <= i < s.len(),
        happiness_of(s[i].happy@) == Happiness::Unrecognized,
    ensures
        score_sum(s) == score_sum(s.remove(i)),
        scored_count(s) == scored_count(s.remove(i)),
        unscored_count(s) == unscored_count(s.remove(i)) + 1,
{
    let a = s.take(i);
    let c = s.skip(i + 1);
    let x = seq![s[i]];
    assert(s =~= a + x + c);
    assert(s.remove(i) =~= a + c);
    lemma_tally_add(a + x, c);
    lemma_tally_add(a, x);
    lemma_tally_add(a, c);
    assert(x.drop_last() =~= Seq::<Service>::empty());
    assert(x.last() == s[i]);
    assert(score_sum(x.drop_last()) == 0);
    assert(scored_count(x.drop_last()) == 0);
    assert(unscored_count(x.drop_last()) == 0);
    assert(score_sum(x) == 0);
    assert(scored_count(x) == 0);
    assert(unscored_count(x) == 1);
}

/// An empty batch has no scored units.
pub proof fn lemma_empty_tally()
    ensures
        score_sum(Seq::<Service>::empty()) == 0,
        scored_count(Seq::<Service>::empty()) == 0,
{
}

/// Tallies the happiness scores of a batch: units whose symbol is not
/// recognized are counted apart and add nothing to the total.
pub fn happiness_tally(services: &Vec<Service>) -> (r: HappinessTally)
    ensures
        r.total == score_sum(services@),
        r.count == scored_count(services@),
        r.unmatched == unscored_count(services@),
{
    let mut total: u128 = 0;
    let mut count: u64 = 0;
    let mut unmatched: u64 = 0;
    let mut i: usize = 0;
    while i < services.len()
        invariant
            i <= services@.len(),
            total == score_sum(services@.take(i as int)),
            count == scored_count(services@.take(i as int)),
            unmatched == unscored_count(services@.take(i as int)),
        decreases services@.len() - i,
    {
        proof {
            let t = services@.take(i + 1);
            assert(t.drop_last() =~= services@.take(i as int));
            lemma_score_sum_bound(services@.take(i as int));
            assert(count + unmatched == i);
        }
        match Happiness::from_symbol(&services[i].happy).score() {
            Some(v) => {
                total = total + v as u128;
                count = count + 1;
            },
            None => {
                unmatched = unmatched + 1;
            },
        }
        i = i + 1;
    }
    proof {
        assert(services@.take(services@.len() as int) =~= services@);
    }
    HappinessTally { total, count, unmatched }
}

} // verus!
