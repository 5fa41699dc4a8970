//! A feedforward neural-network engine and its browser studio, with the
//! decision logic verified: network shape algebra, the training-loop
//! controller (mini-batching, shuffling, cancellation, progress emission),
//! and the studio's byte- and string-level utilities (multipart bodies,
//! form decoding, CSV rows, IDX headers, SSE frames, HTML templating).
//!
//! Floating-point kernels (matrix algebra, activations, losses) cannot be
//! verified and live with the unverified front end, which drives them
//! through the contracts stated here.

pub mod arch;
pub mod bytes;
pub mod csv;
pub mod form;
pub mod idx;
pub mod loss;
pub mod metadata;
pub mod multipart;
pub mod pages;
pub mod render;
pub mod routes;
pub mod shuffle;
pub mod sse;
pub mod studio;
pub mod text;
pub mod train;

pub use arch::{chain_layer_sizes, check_head_pairing, check_network_shape, forward_output_width,
    lemma_forward_width_of_wf, weight_init_for, ActivationKind, LayerShape, WeightInit};
pub use bytes::{find_subsequence, split_on};
pub use csv::{first_width_mismatch, one_hot_flags, parse_class_index, parse_csv_row,
    row_split_point, ClassIndexError, CsvParseError, LabelMode, RowShapeError};
pub use form::{form_get, parse_form, url_decode};
pub use idx::{idx_check_pair, IdxDims, IdxError};
pub use loss::LossType;
pub use metadata::{InputType, ModelMetadata};
pub use multipart::{extract_all_text_fields, extract_boundary, extract_text_field,
    extract_upload_filename, multipart_extract_file, multipart_extract_file_by_name,
    parse_disposition_name};
pub use pages::{build_model_options, default_layer_rows, error_html, image_section,
    numeric_section};
pub use render::{blank_remaining, html_escape, render_flash_html, render_page, Page};
pub use routes::{is_safe_model_name, route_of, sanitize_model_name, split_path_query, Route};
pub use shuffle::shuffle_indices;
pub use sse::{format_sse_event, format_sse_keepalive};
pub use studio::{tab_unlock_mask, FlashKind, FlashMessage};
pub use text::{parse_usize, usize_to_string};
pub use train::{batch_ranges, check_train_inputs, lemma_cancel_before_first_epoch,
    lemma_snapshots_strictly_ordered, lemma_unit_batches_isolate_samples, split_counts,
    stats_plan, RunState, StatsPlan, TrainController, TrainError};
