//! Editor-wide state that the panels share: which tab is open, the output
//! log, and the open scripts, which external edits are synced back into.

use vstd::prelude::*;
use vstd::string::*;
use std::collections::HashMap;
use rbx_dom_weak::types::Ref;

verus! {

/// The editor's tabs.
#[derive(PartialEq, Eq, Debug, Clone, Copy)]
pub enum ActiveTab {
    Explorer,
    Viewport3D,
    ScriptEditor,
    Properties,
    Insert,
    Toolbox,
    Snippets,
    Assets,
    OpenCloud,
    Plugins,
    Browse,
    Output,
    Command,
    Settings,
}

/// One line of the output panel.
pub struct OutputLog {
    /// `INFO` or `ERROR`.
    pub level: &'static str,
    pub message: String,
    /// When the line was logged, as shown.
    pub time: String,
}

/// The output log with `level` and `message` added at the end.
pub open spec fn logged(
    before: Seq<OutputLog>,
    after: Seq<OutputLog>,
    level: Seq<char>,
    message: Seq<char>,
) -> bool {
    &&& after.len() == before.len() + 1
    &&& after.take(before.len() as int) == before
    &&& after.last().level@ == level
    &&& after.last().message@ == message
    &&& after.last().time@ == "now"@
}

/// Adds an informational line to the output log.
pub fn log_info(logs: &mut Vec<OutputLog>, msg: String)
    ensures
        logged(old(logs)@, final(logs)@, "INFO"@, msg@),
{
    logs.push(OutputLog { level: "INFO", message: msg, time: String::from_str("now") });
    assert(logs@.take(old(logs)@.len() as int) =~= old(logs)@);
}

/// Adds an error line to the output log.
pub fn log_error(logs: &mut Vec<OutputLog>, msg: String)
    ensures
        logged(old(logs)@, final(logs)@, "ERROR"@, msg@),
{
    logs.push(OutputLog { level: "ERROR", message: msg, time: String::from_str("now") });
    assert(logs@.take(old(logs)@.len() as int) =~= old(logs)@);
}

/// A script open in the script editor.
pub struct OpenScriptTab {
    pub referent: Ref,
    pub name: String,
    pub class: String,
    /// The text being edited.
    pub buffer: String,
    /// The text as it stands in the place.
    pub original: String,
}

/// What is left to do, in the place itself, for an external edit that came
/// back.
pub enum ExternalEditAction {
    /// The edit belongs to no pending script, or no place is open: nothing
    /// was changed.
    Ignore,
    /// Store `text` as the source of script `referent` in the open place;
    /// the tabs, the status line and the log are updated already.
    SetSource { referent: Ref, text: String },
}

/// Tab `k` is the first tab that shows `referent`.
pub open spec fn is_first_tab(tabs: Seq<OpenScriptTab>, k: int, referent: Ref) -> bool {
    &&& 0 <= k < tabs.len()
    &&& tabs[k].referent == referent
    &&& forall|m: int| 0 <= m < k ==> tabs[m].referent != referent
}

/// `after` is `before` with the first tab that shows `referent` (if any)
/// holding `text`, both as its buffer and as its saved text.
pub open spec fn synced_tabs(
    before: Seq<OpenScriptTab>,
    after: Seq<OpenScriptTab>,
    referent: Ref,
    text: Seq<char>,
) -> bool {
    &&& after.len() == before.len()
    &&& forall|k: int|
        0 <= k < before.len() ==> {
            &&& after[k].referent == before[k].referent
            &&& after[k].name@ == before[k].name@
            &&& after[k].class@ == before[k].class@
            &&& if is_first_tab(before, k, referent) {
                after[k].buffer@ == text && after[k].original@ == text
            } else {
                after[k].buffer@ == before[k].buffer@ && after[k].original@
                    == before[k].original@
            }
        }
}

/// Whether two referents name the same instance (`Ref`'s `==`, which
/// compares the ids they hold).
#[verifier::external_body]
fn same_referent(a: &Ref, b: &Ref) -> (r: bool)
    ensures
        r == (*a == *b),
{
    *a == *b
}

/// An external editor handed back `text` for the edit it was given under
/// `script_id`. When that edit is pending and a place is open, the first
/// tab showing the script takes the text as both its buffer and its saved
/// text, the status line and the log say so, and the text is to be stored
/// in the place; otherwise nothing changes.
pub fn external_edit_returned(
    pending: &HashMap<u64, Ref>,
    place_open: bool,
    tabs: &mut Vec<OpenScriptTab>,
    status: &mut String,
    logs: &mut Vec<OutputLog>,
    script_id: u64,
    text: String,
) -> (action: ExternalEditAction)
    ensures
        pending@.contains_key(script_id) && place_open ==> {
            &&& action matches ExternalEditAction::SetSource { referent, text: t }
            &&& referent == pending@[script_id]
            &&& t@ == text@
            &&& synced_tabs(old(tabs)@, final(tabs)@, pending@[script_id], text@)
            &&& final(status)@ == "\u{26a1} Synced edits from external app"@
            &&& logged(old(logs)@, final(logs)@, "INFO"@, "Synced script from external editor"@)
        },
        !(pending@.contains_key(script_id) && place_open) ==> {
            &&& action is Ignore
            &&& final(tabs)@ == old(tabs)@
            &&& final(status)@ == old(status)@
            &&& final(logs)@ == old(logs)@
        },
{
    broadcast use vstd::std_specs::hash::group_hash_axioms;

    let referent = match pending.get(&script_id) {
        Some(r) => *r,
        None => {
            return ExternalEditAction::Ignore;
        },
    };
    if !place_open {
        return ExternalEditAction::Ignore;
    }
    let ghost before = tabs@;
    let n = tabs.len();
    let mut k: usize = 0;
    while k < n
        invariant_except_break
            tabs@ == before,
            forall|m: int| 0 <= m < k ==> before[m].referent != referent,
        invariant
            n == before.len(),
            k <= n,
            before == old(tabs)@,
            referent == pending@[script_id],
        ensures
            synced_tabs(before, tabs@, referent, text@),
        decreases n - k,
    {
        if same_referent(&tabs[k].referent, &referent) {
            let tab = OpenScriptTab {
                referent: tabs[k].referent,
                name: tabs[k].name.clone(),
                class: tabs[k].class.clone(),
                buffer: text.clone(),
                original: text.clone(),
            };
            tabs.set(k, tab);
            assert(is_first_tab(before, k as int, referent));
            assert forall|j: int| 0 <= j < before.len() && j != k implies !is_first_tab(
                before,
                j,
                referent,
            ) by {
                if j > k {
                    assert(before[k as int].referent == referent);
                }
            }
            break;
        }
        k = k + 1;
    }
    *status = String::from_str("\u{26a1} Synced edits from external app");
    log_info(logs, String::from_str("Synced script from external editor"));
    ExternalEditAction::SetSource { referent, text }
}

} // verus!
