//! Applying the session policy to inbound text, for the composer, for a
//! shell command or for the model.
use vstd::prelude::*;

use crate::sanitize::{
    model_payload, model_payload_with_body, sanitize, security_toast,
    spec_model_payload, spec_needs_note, spec_payload_with_body, spec_sanitize,
    spec_security_toast, ResultV, SanitizeError, SanitizeResult,
};
use crate::session::{opt_text, session_policy, InputSanitizeSession};

verus! {

/// Whether this apply is for the composer UI or the model-facing payload.
#[derive(Debug, Clone, Copy, PartialEq, Eq, Structural)]
pub enum ApplyKind {
    /// Clean text for the prompt buffer (user sees this). Keeps the strip
    /// report so that a later send of the clean text still carries the note.
    Ui,
    /// Clean text only (no model note, no pending report). For shell input.
    Strip,
    /// Clean text plus the model note when one is owed. Does not clear the
    /// pending report: clear it once the send is actually enqueued.
    Send,
}

/// Result of applying input sanitize at an ingress point.
#[derive(Debug, Clone)]
pub struct AppliedInput {
    /// Text for UI / scrollback (always cleaned, no model note).
    pub display_text: String,
    /// Text to send to the model (may include the note).
    pub model_text: String,
    pub result: SanitizeResult,
    pub toast: Option<String>,
    /// True when `model_text` carries a pending paste note or a fresh note.
    pub attached_model_note: bool,
}

/// An applied input as plain values: display text, model text, result,
/// toast, whether a note was attached.
pub type AppliedV = (Seq<char>, Seq<char>, ResultV, Option<Seq<char>>, bool);

impl View for AppliedInput {
    type V = AppliedV;

    open spec fn view(&self) -> AppliedV {
        (self.display_text@, self.model_text@, self.result@, opt_text(self.toast), self.attached_model_note)
    }
}

/// Model text and whether a note is attached, for a fresh result `res` and
/// the pending composer report.
pub open spec fn spec_model_text(kind: ApplyKind, res: ResultV, pending: Option<ResultV>) -> (
    Seq<char>,
    bool,
) {
    match kind {
        ApplyKind::Send => if spec_needs_note(res) {
            (spec_model_payload(res), true)
        } else {
            match pending {
                Some(p) => (spec_payload_with_body(p, res.0), true),
                None => (res.0, false),
            }
        },
        _ => (res.0, false),
    }
}

/// What `apply` returns for the result `res` of sanitizing under the
/// effective policy, which notifies or not.
pub open spec fn spec_applied(
    kind: ApplyKind,
    res: ResultV,
    notify: bool,
    pending: Option<ResultV>,
) -> AppliedV {
    let (model, attached) = spec_model_text(kind, res, pending);
    (res.0, model, res, if notify {
        spec_security_toast(res)
    } else {
        None
    }, attached)
}

impl AppliedInput {
    /// Apply the session policy to `raw`; on success record the raw text
    /// and the result, and for the composer keep the report when it owes
    /// the model a note.
    pub fn apply(session: &mut InputSanitizeSession, raw: &str, kind: ApplyKind) -> (r: Result<
        AppliedInput,
        SanitizeError,
    >)
        ensures
            ({
                let p = session_policy(old(session).base_policy(), old(session).keeps());
                let pending = old(session).pending_report();
                match spec_sanitize(raw@, p) {
                    Err(e) => {
                        &&& r == Err::<AppliedInput, SanitizeError>(e)
                        &&& final(session).pending_report() == pending
                        &&& final(session).last_raw_text() == old(session).last_raw_text()
                        &&& final(session).last_report() == old(session).last_report()
                    },
                    Ok(res) => {
                        &&& r matches Ok(a) && a@ == spec_applied(
                            kind,
                            res,
                            p.notify_when_stripped,
                            pending,
                        )
                        &&& final(session).pending_report() == if kind == ApplyKind::Ui
                            && spec_needs_note(res) {
                            Some(res)
                        } else {
                            pending
                        }
                        &&& final(session).last_raw_text() == Some(raw@)
                        &&& final(session).last_report() == Some(res)
                    },
                }
            }),
            final(session).base_policy() == old(session).base_policy(),
            final(session).keeps() == old(session).keeps(),
    {
        let policy = session.policy();
        let result = match sanitize(raw, &policy) {
            Ok(res) => res,
            Err(e) => {
                return Err(e);
            },
        };
        let toast = if policy.notify_when_stripped {
            security_toast(&result)
        } else {
            None
        };
        let display_text = result.text.clone();
        let (model_text, attached_model_note) = match kind {
            ApplyKind::Ui => {
                session.note_ui_strip(&result);
                (display_text.clone(), false)
            },
            ApplyKind::Strip => (display_text.clone(), false),
            ApplyKind::Send => {
                if result.needs_model_note() {
                    (model_payload(&result), true)
                } else {
                    match session.pending_strip_report() {
                        Some(pending) => (model_payload_with_body(pending, result.text.as_str()), true),
                        None => (result.text.clone(), false),
                    }
                }
            },
        };
        session.record(crate::text::owned(raw), result.copy_result());
        Ok(AppliedInput { display_text, model_text, result, toast, attached_model_note })
    }
}

} // verus!
