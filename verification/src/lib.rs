//! Indexing of file trees, comparison of the indexes, and planning of the
//! copies, deletions and merges that bring one tree in line with another.

pub mod archive;
pub mod archive_compare;
pub mod archive_laws;
pub mod archive_rows;
pub mod backup;
pub mod binary_diff;
pub mod cache;
pub mod choice_laws;
pub mod compare;
pub mod compat;
pub mod compat_laws;
pub mod compat_run;
pub mod compat_run_laws;
pub mod copy_laws;
pub mod copy_run;
pub mod csv;
pub mod delete_run;
pub mod dossier;
pub mod dossier_laws;
pub mod double;
pub mod double_laws;
pub mod extract_check;
pub mod extract_laws;
pub mod filter;
pub mod fingerprint;
pub mod fingerprint_laws;
pub mod fnv;
pub mod hash;
pub mod keyed;
pub mod log_laws;
pub mod logs;
pub mod matching;
pub mod matching_laws;
pub mod member_diff;
pub mod merge;
pub mod merge_laws;
pub mod merge_run_laws;
pub mod number;
pub mod option_laws;
pub mod order;
pub mod overlap_laws;
pub mod path;
pub mod path_laws;
pub mod pattern;
pub mod plan;
pub mod policy;
pub mod profile_table;
pub mod progress;
pub mod progress_laws;
pub mod ratio;
pub mod record;
pub mod report;
pub mod report_laws;
pub mod resume;
pub mod resume_laws;
pub mod scan;
pub mod scan_laws;
pub mod semantic;
pub mod semantic_laws;
pub mod staging;
pub mod status;
pub mod store_laws;
pub mod telling_laws;
pub mod text;
pub mod text_laws;
pub mod textmap;
