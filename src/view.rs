//! Selection in the client's list of anomalies.
use vstd::prelude::*;
use crate::types::AnomalySeverity;

verus! {

/// The selected row of the anomaly list, if any.
#[derive(Debug, Clone, Copy, PartialEq, Eq, Structural)]
pub struct AnomaliesViewState {
    pub selected: Option<usize>,
}

impl Default for AnomaliesViewState {
    /// The first row selected.
    fn default() -> (r: AnomaliesViewState)
        ensures
            r.selected == Some(0usize),
    {
        AnomaliesViewState { selected: Some(0) }
    }
}

impl AnomaliesViewState {
    /// One row up, wrapping from the first row to the last.
    pub fn scroll_up(&mut self, anomalies_count: usize)
        ensures
            anomalies_count == 0 ==> *final(self) == *old(self),
            anomalies_count > 0 ==> final(self).selected == Some(match old(self).selected {
                Some(i) => if i == 0 { (anomalies_count - 1) as usize } else { (i - 1) as usize },
                None => 0usize,
            }),
    {
        if anomalies_count == 0 {
            return;
        }
        let i = match self.selected {
            Some(i) => if i == 0 { anomalies_count - 1 } else { i - 1 },
            None => 0,
        };
        self.selected = Some(i);
    }

    /// One row down, wrapping from the last row to the first.
    pub fn scroll_down(&mut self, anomalies_count: usize)
        ensures
            anomalies_count == 0 ==> *final(self) == *old(self),
            anomalies_count > 0 ==> final(self).selected == Some(match old(self).selected {
                Some(i) => if i >= anomalies_count - 1 { 0usize } else { (i + 1) as usize },
                None => 0usize,
            }),
    {
        if anomalies_count == 0 {
            return;
        }
        let i = match self.selected {
            Some(i) => if i >= anomalies_count - 1 { 0 } else { i + 1 },
            None => 0,
        };
        self.selected = Some(i);
    }

    /// A page up, stopping at the first row.
    pub fn scroll_page_up(&mut self, anomalies_count: usize, page_size: usize)
        ensures
            anomalies_count == 0 ==> *final(self) == *old(self),
            anomalies_count > 0 ==> final(self).selected == Some(match old(self).selected {
                Some(i) => if i >= page_size { (i - page_size) as usize } else { 0usize },
                None => 0usize,
            }),
    {
        if anomalies_count == 0 {
            return;
        }
        let i = match self.selected {
            Some(i) => i.saturating_sub(page_size),
            None => 0,
        };
        self.selected = Some(i);
    }

    /// A page down, stopping at the last row.
    pub fn scroll_page_down(&mut self, anomalies_count: usize, page_size: usize)
        ensures
            anomalies_count == 0 ==> *final(self) == *old(self),
            anomalies_count > 0 ==> final(self).selected == Some(match old(self).selected {
                Some(i) => if i + page_size < anomalies_count - 1 { (i + page_size) as usize } else { (anomalies_count - 1) as usize },
                None => 0usize,
            }),
    {
        if anomalies_count == 0 {
            return;
        }
        let last = anomalies_count - 1;
        let i = match self.selected {
            Some(i) => if page_size < last && i < last - page_size { i + page_size } else { last },
            None => 0,
        };
        self.selected = Some(i);
    }

    /// The last row, the newest anomaly.
    pub fn scroll_to_newest(&mut self, anomalies_count: usize)
        ensures
            anomalies_count == 0 ==> *final(self) == *old(self),
            anomalies_count > 0 ==> final(self).selected == Some((anomalies_count - 1) as usize),
    {
        if anomalies_count > 0 {
            self.selected = Some(anomalies_count - 1);
        }
    }
}

/// The symbol shown before an anomaly of the given severity.
pub fn get_severity_symbol(severity: &AnomalySeverity) -> (r: &'static str)
    ensures
        *severity == AnomalySeverity::Info ==> r@ == "ℹ"@,
        *severity == AnomalySeverity::Warning ==> r@ == "⚠"@,
        *severity == AnomalySeverity::Critical ==> r@ == "✖"@,
{
    match severity {
        AnomalySeverity::Info => "ℹ",
        AnomalySeverity::Warning => "⚠",
        AnomalySeverity::Critical => "✖",
    }
}

} // verus!
