//! The finder: its parts, each as it is when the finder starts.

use crate::config::FuzzyConfig;
use crate::filter;
use crate::filter::{FilterStage, FilterView};
use crate::output::{OutputStage, OutputStageView, FIRST_DOC_INDEX};
use crate::state::{FuzzyEscapeState, FuzzyQueryState, FuzzySelectState, QueryView};
use vstd::prelude::*;

verus! {

/// The parts of a running finder. Each is moved on by the function of the finder that bears its
/// name, whenever a message reaches it, and sends what that function gives out to the parts that
/// wait for it. The selection is not among them: it starts once the number of rows of the terminal
/// is known.
pub struct FuzzyFinderService {
    pub escape: FuzzyEscapeState,
    pub query_state: FuzzyQueryState,
    pub filter_state: FilterStage,
    pub send_selected: Option<FuzzySelectState>,
    pub output_state: OutputStage,
}

impl FuzzyFinderService {
    /// A finder that nothing has reached yet.
    pub fn spawn(escape: FuzzyEscapeState, config: FuzzyConfig) -> (r: FuzzyFinderService)
        ensures
            r.escape == escape,
            r.query_state@ == (QueryView { query: Seq::empty(), cursor_index: 0 }),
            r.filter_state@ == (FilterView { entries: Seq::empty(), query: None, config }),
            r.send_selected is None,
            r.output_state@ == (OutputStageView {
                query: QueryView { query: Seq::empty(), cursor_index: 0 },
                matches: Seq::empty(),
                total: 0,
                doc_index: FIRST_DOC_INDEX as int,
                selection: None,
            }),
            r.query_state@.cursor_in_query(),
            filter::in_listing_order(r.filter_state@.entries),
    {
        FuzzyFinderService {
            escape,
            query_state: FuzzyQueryState::default(),
            filter_state: FilterStage::new(config),
            send_selected: None,
            output_state: OutputStage::new(),
        }
    }
}

} // verus!
