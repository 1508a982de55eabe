//! A bounded, abstracts-only context for multi-paper synthesis and Q&A
//! (collection overview, method comparison, library-wide questions).

use vstd::prelude::*;
use crate::llm::provider::{PaperBrief, MAX_SYNTHESIS_PAPERS};
use crate::models::{Item, views, opt_view, clone_strings, clone_opt};

verus! {

/// The papers folded into a synthesis prompt, plus how many of the
/// requested items survived the cap.
#[derive(Debug, Clone, PartialEq)]
pub struct SynthesisContext {
    pub papers: Vec<PaperBrief>,
    /// Papers actually included (after the cap).
    pub included: usize,
    /// Papers requested.
    pub total: usize,
}

/// `b` carries the metadata of `it`.
pub open spec fn brief_of(b: PaperBrief, it: Item) -> bool {
    &&& b.title@ == it.title@
    &&& views(b.creators@) == views(it.creators@)
    &&& b.year == it.year
    &&& opt_view(b.publication) == opt_view(it.publication)
    &&& opt_view(b.abstract_text) == opt_view(it.abstract_text)
}

/// Build the context from the requested items, in the given order, capping
/// at `MAX_SYNTHESIS_PAPERS`. Abstracts are passed through as-is; items
/// without an abstract contribute their title/venue only.
pub fn build_context(items: &[Item]) -> (c: SynthesisContext)
    ensures
        c.total == items@.len(),
        c.included == c.papers@.len(),
        c.included == (if items@.len() < MAX_SYNTHESIS_PAPERS { items@.len() } else { MAX_SYNTHESIS_PAPERS as nat }),
        forall|i: int| 0 <= i < c.papers@.len() ==> brief_of(#[trigger] c.papers@[i], items@[i]),
{
    let n = if items.len() < MAX_SYNTHESIS_PAPERS { items.len() } else { MAX_SYNTHESIS_PAPERS };
    let mut papers: Vec<PaperBrief> = Vec::new();
    let mut i: usize = 0;
    while i < n
        invariant
            i <= n <= items.len(),
            papers@.len() == i,
            forall|k: int| 0 <= k < i ==> brief_of(#[trigger] papers@[k], items@[k]),
        decreases n - i,
    {
        let it = &items[i];
        papers.push(PaperBrief {
            title: it.title.clone(),
            creators: clone_strings(&it.creators),
            year: it.year,
            publication: clone_opt(&it.publication),
            abstract_text: clone_opt(&it.abstract_text),
        });
        i += 1;
    }
    SynthesisContext { included: papers.len(), total: items.len(), papers }
}

} // verus!
