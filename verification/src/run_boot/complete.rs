//! Boot completion's merge of the boot domain into the corpus: the corpus
//! wins an aggregate collision, and the boot domain's policies, process
//! managers, cadences and grammars are appended.

use vstd::prelude::*;
use crate::ir::{Aggregate, AggregateModel, Domain, DomainModel, group_views, opt_view, seq_view};
use crate::text::{chars_of, eq};

verus! {

broadcast use group_views;

/// Two aggregates collide when name, context and category all agree.
pub open spec fn collides(a: AggregateModel, b: AggregateModel) -> bool {
    a.name == b.name && a.context == b.context && a.category == b.category
}

/// The corpus aggregates with each boot aggregate appended in turn unless
/// one already present collides with it.
pub open spec fn merged_aggregates(corpus: Seq<AggregateModel>, boot: Seq<AggregateModel>) -> Seq<AggregateModel>
    decreases boot.len(),
{
    if boot.len() == 0 {
        corpus
    } else {
        let m = merged_aggregates(corpus, boot.drop_last());
        if exists|i: int| 0 <= i < m.len() && collides(m[i], boot.last()) { m } else { m.push(boot.last()) }
    }
}

/// The boot domain merged into the corpus domain.
pub open spec fn merged_domain(corpus: DomainModel, boot: DomainModel) -> DomainModel {
    DomainModel {
        aggregates: merged_aggregates(corpus.aggregates, boot.aggregates),
        policies: corpus.policies + boot.policies,
        process_managers: corpus.process_managers + boot.process_managers,
        cadences: corpus.cadences + boot.cadences,
        block_grammars: corpus.block_grammars + boot.block_grammars,
        ..corpus
    }
}

fn opt_text_eq(a: &Option<String>, b: &Option<String>) -> (r: bool)
    ensures
        r == (opt_view(*a) == opt_view(*b)),
{
    match (a, b) {
        (Some(x), Some(y)) => eq(&chars_of(x.as_str()), &chars_of(y.as_str())),
        (None, None) => true,
        _ => false,
    }
}

fn collides_exec(a: &Aggregate, b: &Aggregate) -> (r: bool)
    ensures
        r == collides(a@, b@),
{
    eq(&chars_of(a.name.as_str()), &chars_of(b.name.as_str())) && opt_text_eq(&a.context, &b.context)
        && opt_text_eq(&a.category, &b.category)
}

/// Merges the boot domain into the corpus. The corpus wins an aggregate
/// collision (same name, context and category); the boot domain's own
/// aggregates are appended, and its policies, process managers, cadences
/// and block grammars extend the corpus's without dedupe.
pub fn merge_boot_into_corpus(corpus: Domain, boot: Domain) -> (r: Domain)
    ensures
        r@ == merged_domain(corpus@, boot@),
{
    let ghost c0 = corpus@;
    let ghost b0 = boot@;
    let mut corpus = corpus;
    let mut boot = boot;
    let mut rest = Vec::new();
    std::mem::swap(&mut rest, &mut boot.aggregates);
    let ghost all = seq_view(rest@);
    let total = rest.len();
    let mut taken: usize = 0;
    assert(all.take(0) =~= Seq::<AggregateModel>::empty());
    while rest.len() > 0
        invariant
            taken + rest.len() == all.len(),
            all.len() == total,
            seq_view(rest@) == all.subrange(taken as int, all.len() as int),
            all == b0.aggregates,
            seq_view(corpus.aggregates@) == merged_aggregates(c0.aggregates, all.take(taken as int)),
            corpus.name@ == c0.name,
            opt_view(corpus.category) == c0.category,
            opt_view(corpus.vision) == c0.vision,
            seq_view(corpus.policies@) == c0.policies,
            seq_view(corpus.fixtures@) == c0.fixtures,
            opt_view(corpus.entrypoint) == c0.entrypoint,
            seq_view(corpus.sections@) == c0.sections,
            seq_view(corpus.process_managers@) == c0.process_managers,
            seq_view(corpus.cadences@) == c0.cadences,
            seq_view(corpus.block_grammars@) == c0.block_grammars,
        decreases rest.len(),
    {
        let ghost old_rest = rest@;
        let agg = rest.remove(0);
        assert(seq_view(old_rest)[0] == agg@);
        assert(all[taken as int] == agg@) by {
            assert(all.subrange(taken as int, all.len() as int)[0] == all[taken as int]);
        }
        assert(all.take(taken + 1).drop_last() =~= all.take(taken as int));
        assert(seq_view(rest@) =~= seq_view(old_rest).drop_first());
        assert(seq_view(rest@) =~= all.subrange(taken + 1, all.len() as int));
        let ghost m = seq_view(corpus.aggregates@);
        let mut found = false;
        let mut i: usize = 0;
        while i < corpus.aggregates.len()
            invariant
                i <= corpus.aggregates.len(),
                m == seq_view(corpus.aggregates@),
                found == exists|k: int| 0 <= k < i && collides(m[k], agg@),
            decreases corpus.aggregates.len() - i,
        {
            let c = collides_exec(&corpus.aggregates[i], &agg);
            assert(c == collides(m[i as int], agg@));
            if c {
                found = true;
            }
            assert(found == exists|k: int| 0 <= k < i + 1 && collides(m[k], agg@)) by {
                if c {
                    assert(collides(m[i as int], agg@));
                }
            }
            i = i + 1;
        }
        if !found {
            corpus.aggregates.push(agg);
        }
        taken = taken + 1;
    }
    assert(all.take(all.len() as int) =~= all);
    let ghost p0 = seq_view(corpus.policies@);
    corpus.policies.append(&mut boot.policies);
    corpus.process_managers.append(&mut boot.process_managers);
    corpus.cadences.append(&mut boot.cadences);
    corpus.block_grammars.append(&mut boot.block_grammars);
    assert(seq_view(corpus.policies@) =~= c0.policies + b0.policies);
    assert(seq_view(corpus.process_managers@) =~= c0.process_managers + b0.process_managers);
    assert(seq_view(corpus.cadences@) =~= c0.cadences + b0.cadences);
    assert(seq_view(corpus.block_grammars@) =~= c0.block_grammars + b0.block_grammars);
    corpus
}

/// The merge keeps the corpus: its aggregates come first and unchanged,
/// and every boot aggregate is either appended or collides with one
/// already present.
pub proof fn law_corpus_wins(corpus: Seq<AggregateModel>, boot: Seq<AggregateModel>)
    ensures
        merged_aggregates(corpus, boot).len() >= corpus.len(),
        merged_aggregates(corpus, boot).subrange(0, corpus.len() as int) == corpus,
        forall|i: int| 0 <= i < boot.len() ==> exists|k: int| 0 <= k < merged_aggregates(corpus, boot).len()
            && collides(#[trigger] merged_aggregates(corpus, boot)[k], #[trigger] boot[i]),
    decreases boot.len(),
{
    if boot.len() > 0 {
        let m = merged_aggregates(corpus, boot.drop_last());
        law_corpus_wins(corpus, boot.drop_last());
        let r = merged_aggregates(corpus, boot);
        if exists|i: int| 0 <= i < m.len() && collides(m[i], boot.last()) {
            assert(r == m);
        } else {
            assert(r == m.push(boot.last()));
            assert(r.subrange(0, corpus.len() as int) =~= m.subrange(0, corpus.len() as int));
        }
        assert forall|i: int| 0 <= i < boot.len() implies exists|k: int| 0 <= k < r.len()
            && collides(#[trigger] r[k], #[trigger] boot[i]) by {
            if i < boot.len() - 1 {
                assert(boot.drop_last()[i] == boot[i]);
                let k = choose|k: int| 0 <= k < m.len() && collides(#[trigger] m[k], #[trigger] boot.drop_last()[i]);
                assert(r[k] == m[k]);
            } else {
                if exists|k: int| 0 <= k < m.len() && collides(m[k], boot.last()) {
                    let k = choose|k: int| 0 <= k < m.len() && collides(m[k], boot.last());
                    assert(r[k] == m[k]);
                } else {
                    assert(r[m.len() as int] == boot.last());
                    assert(collides(boot.last(), boot.last()));
                }
            }
        }
    } else {
        assert(corpus.subrange(0, corpus.len() as int) =~= corpus);
    }
}

} // verus!
