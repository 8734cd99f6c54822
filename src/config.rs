//! The configuration of an analysis run.
use vstd::prelude::*;

use crate::element::Element;

verus! {

/// Which filtering pipeline follows the shared filters.
#[derive(Debug, Clone, Copy, PartialEq, Eq, Structural)]
pub enum AnalysisMode {
    /// Element-count filters relative to the user's element, and the
    /// weighted compatibility score.
    Compatibility,
    /// Exactly two digits of each element; the adjacency score alone.
    AbsoluteBalance,
}

/// Options of one analysis run. Score weights are whole numbers.
#[derive(Debug, Clone)]
pub struct AnalyzeConfig {
    pub mode: AnalysisMode,
    pub user_menh: Element,
    pub score_sinh: i32,
    pub score_cung: i32,
    pub score_bi_khac: i32,
    pub score_sinh_xuat: i32,
    pub score_khac: i32,
    pub filter_khac_max: usize,
    pub filter_bi_khac_max: usize,
    pub filter_sinh_min: usize,
    pub filter_cung_min: usize,
    pub filter_tong_max: usize,
    pub filter_any_max: usize,
    pub toggle_static_balance: bool,
    pub toggle_completeness: bool,
    pub toggle_prefix_filter: bool,
    pub prefix_value: String,
    pub toggle_suffix_filter: bool,
    pub suffix_value: String,
    pub toggle_blacklist_filter: bool,
    pub blacklist_digits: String,
}

impl Default for AnalyzeConfig {
    fn default() -> (r: AnalyzeConfig)
        ensures
            r.mode == AnalysisMode::Compatibility,
            r.user_menh == Element::Kim,
            r.score_sinh == 3 && r.score_cung == 2 && r.score_bi_khac == 1,
            r.score_sinh_xuat == -1 && r.score_khac == -3,
            r.filter_khac_max == 1 && r.filter_bi_khac_max == 2,
            r.filter_sinh_min == 2 && r.filter_cung_min == 2,
            r.filter_tong_max == 5 && r.filter_any_max == 4,
            r.toggle_static_balance && r.toggle_completeness,
            !r.toggle_prefix_filter && r.prefix_value@.len() == 0,
            !r.toggle_suffix_filter && r.suffix_value@.len() == 0,
            !r.toggle_blacklist_filter && r.blacklist_digits@.len() == 0,
    {
        AnalyzeConfig {
            mode: AnalysisMode::Compatibility,
            user_menh: Element::Kim,
            score_sinh: 3,
            score_cung: 2,
            score_bi_khac: 1,
            score_sinh_xuat: -1,
            score_khac: -3,
            filter_khac_max: 1,
            filter_bi_khac_max: 2,
            filter_sinh_min: 2,
            filter_cung_min: 2,
            filter_tong_max: 5,
            filter_any_max: 4,
            toggle_static_balance: true,
            toggle_completeness: true,
            toggle_prefix_filter: false,
            prefix_value: String::new(),
            toggle_suffix_filter: false,
            suffix_value: String::new(),
            toggle_blacklist_filter: false,
            blacklist_digits: String::new(),
        }
    }
}

} // verus!
