//! Collects the shared-library dependencies of a set of target binaries and
//! plans copying them into an output directory, excluding any library whose
//! path matches one of a set of exclude glob patterns.
//!
//! The to-copy set is deduplicated and kept in lexicographic order, so a dry
//! run and a real run enumerate the same paths in the same order.

mod copyset;
mod globpat;
mod laws;
mod order;
mod pathname;
mod pipeline;
mod report;

pub use order::lex_le;
pub use order::lex_lt;
pub use order::str_le;
pub use copyset::sorted_strict;
pub use copyset::views_of;
pub use copyset::ToCopySet;
pub use copyset::lemma_sorted_strict_no_duplicates;
pub use globpat::glob_matches;
pub use globpat::glob_pattern_ok;
pub use pathname::base_name;
pub use pathname::base_name_of;
pub use pathname::has_base_name;
pub use pathname::join_of;
pub use pathname::join_path;
pub use pipeline::add_libraries;
pub use pipeline::check;
pub use pipeline::passes;
pub use pipeline::Excludes;
pub use laws::lemma_dry_run_same_report;
pub use laws::lemma_empty_set_header_only;
pub use laws::lemma_excluded_path_absent;
pub use laws::lemma_shared_destination_order;
pub use report::copies_of;
pub use report::header_line;
pub use report::header_of;
pub use report::line_of;
pub use report::pair_views_of;
pub use report::plan_copies;
pub use report::plan_of;
pub use report::plan_run;
pub use report::render_line;
pub use report::stdout_of;
pub use report::RunPlan;
