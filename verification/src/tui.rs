//! The data a terminal display shows: labelled status lines and the recent
//! instruction and finding rows.
use vstd::prelude::*;

verus! {

/// A label and its value.
#[derive(Clone, Debug, PartialEq, Eq)]
pub struct UiStatusLine {
    pub label: String,
    pub value: String,
}

impl Default for UiStatusLine {
    fn default() -> (r: Self)
        ensures
            r.label@ == Seq::<char>::empty(),
            r.value@ == Seq::<char>::empty(),
    {
        UiStatusLine { label: String::new(), value: String::new() }
    }
}

/// What the live display holds.
#[derive(Clone, Debug, PartialEq, Eq)]
pub struct LiveUiModel {
    pub header: Vec<UiStatusLine>,
    pub recent_instructions: Vec<String>,
    pub recent_artifacts: Vec<String>,
}

impl Default for LiveUiModel {
    fn default() -> (r: Self)
        ensures
            r.header@.len() == 0,
            r.recent_instructions@.len() == 0,
            r.recent_artifacts@.len() == 0,
    {
        LiveUiModel { header: Vec::new(), recent_instructions: Vec::new(), recent_artifacts: Vec::new() }
    }
}

} // verus!
