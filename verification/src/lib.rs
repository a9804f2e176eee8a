//! Input sanitizer: character classification, named policies, the
//! single-pass filter, residual-risk analysis of text and images,
//! model-facing notes, the untrusted-content and model-bound filters, and
//! the terminal-side session, snapshot and command logic around them.
//!
//! Every public function states what it returns in its contract and is
//! proved against it.
use vstd::prelude::*;

pub mod text;
pub mod category;
pub mod classify;
pub mod policy;
pub mod config;
pub mod sanitize;
pub mod analyze;
pub mod stats;
pub mod analyze_image;
pub mod note;
pub mod untrusted;
pub mod model_bound;
pub mod snapshot;
pub mod session;
pub mod apply;
pub mod input_allow;
pub mod persist;
pub mod laws;
pub mod wide;

pub use analyze::{
    add_entropy, entropy_sample, merge_reports, AnalysisLevel, AnalysisReport, AnalysisSignal,
    SignalKind,
};
pub use analyze_image::{analyze_image_bytes, decode_base64_image, image_untrusted_note};
pub use apply::{AppliedInput, ApplyKind};
pub use category::{RiskCategory, Severity};
pub use classify::{classify, is_base_allowed};
pub use config::{policy_from_layers, InputSanitizeConfig};
pub use input_allow::{ArgItem, CommandAction, InputAllowCommand, InputDenyCommand, SETTINGS_FILTER};
pub use model_bound::{hard_filter_model_text, is_exotic_emoji, EMOJI_DENSITY_CAP};
pub use persist::{
    bool_field_edit, category_action_edit, persist_plan, try_bool_field_edit,
    try_category_action_edit, ConfigEditError, ConfigFile, ConfigScope, PersistStep,
};
pub use note::{format_model_note, format_untrusted_note};
pub use policy::{CategoryAction, PolicyError, SanitizePolicy, SanitizeProfile};
pub use sanitize::{
    model_payload, model_payload_with_body, sanitize, security_toast, CategoryHit, SanitizeError,
    SanitizeResult,
};
pub use session::InputSanitizeSession;
pub use snapshot::InputSanitizeSnapshot;
pub use untrusted::{filter_untrusted_text, sanitize_untrusted, untrusted_model_payload, UntrustedSource};

verus! {

} // verus!
