//! Element analysis and scoring of ten-digit numbers under the five-element
//! ("Ngũ Hành") model: digit classification, the roles relative to a user's
//! element, the static-balance, custom, compatibility and absolute-balance
//! filters, the scores, and a stable ranking of the accepted numbers.
pub mod analysis;
pub mod config;
pub mod element;
pub mod phone;
pub mod ranking;
pub mod text;

pub use analysis::{
    analyze, evaluate, quick_check_single_number, rank_results, AnalyzeResult, CheckResult,
    Rejection,
};
pub use config::{AnalysisMode, AnalyzeConfig};
pub use element::{digit_to_element, get_element_roles, Element};
pub use phone::{CompatFailure, PhoneNumber};
