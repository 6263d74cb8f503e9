//! Actions, interaction history, and the execution engine's decisions.
//!
//! The engine is a set of verified decision functions: given an action and
//! the history so far, `plan` says which protocol request to issue; given
//! the ordered matches of a find request, `resolve_target` picks the
//! element; and the `settle_*` functions say how the history changes once
//! the protocol call came back.  The surrounding program performs the
//! requests and feeds the outcomes back; every failure is a value, and a
//! failed call never touches the history.

use vstd::prelude::*;

verus! {

/// An opaque reference to a live DOM node.  The driver adapter owns the
/// real node and hands the engine a numeric handle for it; the handle is
/// only compared and stored, never inspected.
pub type ElementHandle = u64;

/// How to locate an element in the document.
#[derive(Debug, Clone, PartialEq)]
pub enum HtmlElementIdentifier {
    /// Element by name and the index into the ordered match list.
    Name(String, usize),
    /// Element by class name and the index into the ordered match list.
    Class(String, usize),
    /// Element by its unique id.
    Id(String),
}

/// One requested operation.
#[derive(Debug, Clone, PartialEq)]
pub enum Action {
    /// Send text to the implicit target.
    Type(String),
    /// Click the element the identifier resolves to.
    Click(HtmlElementIdentifier),
    /// Navigate the session to a url.
    GoTo(String),
    /// Send an Enter keystroke to the implicit target.
    PressEnter,
    /// Load a script file and run its actions in order.
    RunScript(String),
}

/// One executed action together with the element it bound to, if any.
#[derive(Debug, Clone, PartialEq)]
pub struct HistoryEntry {
    pub action: Action,
    pub interacted_element: Option<ElementHandle>,
}

/// Why a single action was abandoned.  Every such failure is logged by the
/// caller and recovered on the spot; no action failure is fatal.
#[derive(Debug, Clone, Copy, PartialEq, Eq, Structural)]
pub enum ExecError {
    /// A find request matched nothing.
    ElementNotFound,
    /// A find request matched too few elements for the wanted index.
    IndexOutOfRange,
    /// `Type` or `PressEnter` with no successful click in the history.
    NoImplicitTarget,
    /// The protocol client reported a failed click.
    ClickFailed,
    /// The protocol client reported failed keystrokes.
    SendKeysFailed,
    /// The protocol client reported a failed navigation.
    NavigateFailed,
}

/// A query to put to the protocol client.
#[derive(Debug, Clone, PartialEq)]
pub enum FindRequest {
    /// A single-element query by id.
    ById(String),
    /// An all-matches query by name, in document order.
    AllByName(String),
    /// An all-matches query by class name, in document order.
    AllByClass(String),
}

/// What the engine asks the surrounding program to do for one action.
#[derive(Debug, Clone, PartialEq)]
pub enum Plan {
    /// Put a find query to the protocol client, then resolve and click.
    Find(FindRequest),
    /// Ask the protocol client to navigate to the url.
    Navigate(String),
    /// Send the text to the element as keystrokes.
    SendKeys(ElementHandle, String),
    /// Send an Enter keystroke to the element.
    SendEnter(ElementHandle),
    /// Load the script file and run its actions under these same rules.
    LoadScript(String),
    /// Do nothing; no protocol call is issued.
    Skip(ExecError),
}

/// A history entry recording a click that bound an element.
pub open spec fn is_bound_click(e: HistoryEntry) -> bool {
    &&& e.action matches Action::Click(_)
    &&& e.interacted_element is Some
}

/// The implicit target: the element bound by the most recent click entry,
/// scanned from the tail backward past any other entries.
pub open spec fn spec_last_click(h: Seq<HistoryEntry>) -> Option<ElementHandle>
    decreases h.len(),
{
    if h.len() == 0 {
        None
    } else if is_bound_click(h.last()) {
        h.last().interacted_element
    } else {
        spec_last_click(h.drop_last())
    }
}

/// The find query an identifier calls for: a single-element query for an
/// id, an all-matches query for a name or class.
pub open spec fn find_request_spec(id: HtmlElementIdentifier, f: FindRequest) -> bool {
    match id {
        HtmlElementIdentifier::Id(x) => f matches FindRequest::ById(y) && y@ == x@,
        HtmlElementIdentifier::Name(x, _) => f matches FindRequest::AllByName(y) && y@ == x@,
        HtmlElementIdentifier::Class(x, _) => f matches FindRequest::AllByClass(y) && y@
            == x@,
    }
}

/// What the engine decides for one action against one history.
pub open spec fn plan_spec(a: Action, h: Seq<HistoryEntry>, p: Plan) -> bool {
    match a {
        Action::Click(id) => p matches Plan::Find(f) && find_request_spec(id, f),
        Action::GoTo(u) => p matches Plan::Navigate(u2) && u2@ == u@,
        Action::Type(t) => match spec_last_click(h) {
            Some(e) => p matches Plan::SendKeys(e2, t2) && e2 == e && t2@ == t@,
            None => p matches Plan::Skip(r) && r == ExecError::NoImplicitTarget,
        },
        Action::PressEnter => match spec_last_click(h) {
            Some(e) => p matches Plan::SendEnter(e2) && e2 == e,
            None => p matches Plan::Skip(r) && r == ExecError::NoImplicitTarget,
        },
        Action::RunScript(path) => p matches Plan::LoadScript(p2) && p2@ == path@,
    }
}

impl HtmlElementIdentifier {
    /// An equal copy.
    pub fn duplicate(&self) -> (r: Self)
        ensures
            r == *self,
    {
        match self {
            HtmlElementIdentifier::Name(s, i) => HtmlElementIdentifier::Name(s.clone(), *i),
            HtmlElementIdentifier::Class(s, i) => HtmlElementIdentifier::Class(
                s.clone(),
                *i,
            ),
            HtmlElementIdentifier::Id(s) => HtmlElementIdentifier::Id(s.clone()),
        }
    }
}

impl Action {
    /// An equal copy.
    pub fn duplicate(&self) -> (r: Self)
        ensures
            r == *self,
    {
        match self {
            Action::Type(t) => Action::Type(t.clone()),
            Action::Click(id) => Action::Click(id.duplicate()),
            Action::GoTo(u) => Action::GoTo(u.clone()),
            Action::PressEnter => Action::PressEnter,
            Action::RunScript(p) => Action::RunScript(p.clone()),
        }
    }
}

/// The implicit target of the history: the element of the most recent
/// click entry that bound one.
pub fn implicit_target(history: &Vec<HistoryEntry>) -> (r: Option<ElementHandle>)
    ensures
        r == spec_last_click(history@),
{
    let mut i: usize = history.len();
    proof {
        assert(history@.take(history@.len() as int) =~= history@);
    }
    while i > 0
        invariant
            i <= history@.len(),
            spec_last_click(history@) == spec_last_click(history@.take(i as int)),
        decreases i,
    {
        proof {
            assert(history@.take(i as int).drop_last() =~= history@.take(i - 1));
            assert(history@.take(i as int).last() == history@[i - 1]);
        }
        let bound = match &history[i - 1].action {
            Action::Click(_) => history[i - 1].interacted_element,
            _ => None,
        };
        if let Some(e) = bound {
            return Some(e);
        }
        i = i - 1;
    }
    proof {
        assert(history@.take(0) =~= Seq::<HistoryEntry>::empty());
    }
    None
}

/// Decide what one action asks of the surrounding program.  `Type` and
/// `PressEnter` resolve their implicit target here: with no bound click in
/// the history they are skipped, with no protocol call at all.
pub fn plan(action: &Action, history: &Vec<HistoryEntry>) -> (p: Plan)
    ensures
        plan_spec(*action, history@, p),
{
    match action {
        Action::Click(id) => {
            let f = match id {
                HtmlElementIdentifier::Id(x) => FindRequest::ById(x.clone()),
                HtmlElementIdentifier::Name(x, _) => FindRequest::AllByName(x.clone()),
                HtmlElementIdentifier::Class(x, _) => FindRequest::AllByClass(x.clone()),
            };
            Plan::Find(f)
        },
        Action::GoTo(u) => Plan::Navigate(u.clone()),
        Action::Type(t) => match implicit_target(history) {
            Some(e) => Plan::SendKeys(e, t.clone()),
            None => Plan::Skip(ExecError::NoImplicitTarget),
        },
        Action::PressEnter => match implicit_target(history) {
            Some(e) => Plan::SendEnter(e),
            None => Plan::Skip(ExecError::NoImplicitTarget),
        },
        Action::RunScript(p) => Plan::LoadScript(p.clone()),
    }
}

/// Which element a find result selects.  An id query takes the single
/// match; a name or class query takes the `index`-th of the ordered match
/// list.  An empty result is `ElementNotFound`; a list too short for the
/// index is `IndexOutOfRange`.
pub open spec fn resolve_spec(
    id: HtmlElementIdentifier,
    found: Seq<ElementHandle>,
    r: Result<ElementHandle, ExecError>,
) -> bool {
    let wanted: int = match id {
        HtmlElementIdentifier::Id(_) => 0,
        HtmlElementIdentifier::Name(_, i) => i as int,
        HtmlElementIdentifier::Class(_, i) => i as int,
    };
    if found.len() == 0 {
        r matches Err(ExecError::ElementNotFound)
    } else if wanted < found.len() {
        r matches Ok(e) && e == found[wanted]
    } else {
        r matches Err(ExecError::IndexOutOfRange)
    }
}

/// Select the element a find result yields for this identifier.
pub fn resolve_target(
    identifier: &HtmlElementIdentifier,
    found: &Vec<ElementHandle>,
) -> (r: Result<ElementHandle, ExecError>)
    ensures
        resolve_spec(*identifier, found@, r),
{
    let wanted: usize = match identifier {
        HtmlElementIdentifier::Id(_) => 0,
        HtmlElementIdentifier::Name(_, i) => *i,
        HtmlElementIdentifier::Class(_, i) => *i,
    };
    if found.len() == 0 {
        Err(ExecError::ElementNotFound)
    } else if wanted < found.len() {
        Ok(found[wanted])
    } else {
        Err(ExecError::IndexOutOfRange)
    }
}

/// Record the outcome of a click.  A successful click appends the entry
/// that binds the element; a failed one leaves the history unchanged.
pub fn settle_click(
    history: &mut Vec<HistoryEntry>,
    identifier: HtmlElementIdentifier,
    element: ElementHandle,
    clicked: bool,
)
    ensures
        clicked ==> final(history)@ == old(history)@.push(
            HistoryEntry {
                action: Action::Click(identifier),
                interacted_element: Some(element),
            },
        ),
        !clicked ==> final(history)@ == old(history)@,
{
    if clicked {
        history.push(
            HistoryEntry {
                action: Action::Click(identifier),
                interacted_element: Some(element),
            },
        );
    }
}

/// Record the outcome of a navigation.  Success appends an entry with no
/// bound element; failure leaves the history unchanged.
pub fn settle_goto(history: &mut Vec<HistoryEntry>, url: String, ok: bool)
    ensures
        ok ==> final(history)@ == old(history)@.push(
            HistoryEntry { action: Action::GoTo(url), interacted_element: None },
        ),
        !ok ==> final(history)@ == old(history)@,
{
    if ok {
        history.push(HistoryEntry { action: Action::GoTo(url), interacted_element: None });
    }
}

/// Record the outcome of sent text.  Success appends an entry that keeps
/// the same element bound; failure leaves the history unchanged.
pub fn settle_type(
    history: &mut Vec<HistoryEntry>,
    text: String,
    element: ElementHandle,
    sent: bool,
)
    ensures
        sent ==> final(history)@ == old(history)@.push(
            HistoryEntry { action: Action::Type(text), interacted_element: Some(element) },
        ),
        !sent ==> final(history)@ == old(history)@,
{
    if sent {
        history.push(
            HistoryEntry { action: Action::Type(text), interacted_element: Some(element) },
        );
    }
}

/// Record the outcome of a sent Enter keystroke, as `settle_type` does.
pub fn settle_enter(history: &mut Vec<HistoryEntry>, element: ElementHandle, sent: bool)
    ensures
        sent ==> final(history)@ == old(history)@.push(
            HistoryEntry { action: Action::PressEnter, interacted_element: Some(element) },
        ),
        !sent ==> final(history)@ == old(history)@,
{
    if sent {
        history.push(
            HistoryEntry { action: Action::PressEnter, interacted_element: Some(element) },
        );
    }
}

/// After a successful click bound the element `e`, the implicit target
/// stays `e` past any later entries that are not themselves bound clicks —
/// navigations, typed text, Enter keystrokes — until a new successful
/// click appends one.
pub proof fn lemma_implicit_target_until_next_click(h: Seq<HistoryEntry>, i: int)
    requires
        0 <= i < h.len(),
        is_bound_click(h[i]),
        forall|j: int| i < j < h.len() ==> !is_bound_click(#[trigger] h[j]),
    ensures
        spec_last_click(h) == h[i].interacted_element,
    decreases h.len(),
{
    if i == h.len() - 1 {
    } else {
        assert(!is_bound_click(h.last()));
        lemma_implicit_target_until_next_click(h.drop_last(), i);
    }
}

/// With no bound click anywhere in the history there is no implicit
/// target: `Type` and `PressEnter` are then planned as `Skip`, so no
/// protocol call is issued and nothing is appended.
pub proof fn lemma_no_click_no_target(h: Seq<HistoryEntry>)
    requires
        forall|j: int| 0 <= j < h.len() ==> !is_bound_click(#[trigger] h[j]),
    ensures
        spec_last_click(h) is None,
    decreases h.len(),
{
    if h.len() > 0 {
        lemma_no_click_no_target(h.drop_last());
    }
}

} // verus!
