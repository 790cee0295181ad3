//! Decisions taken while the shell enumerates the handlers registered for
//! an extension. The caller fetches handlers one at a time and reports each
//! fetch as a `HandlerEvent`; the machines below say what to do next.
use vstd::prelude::*;

use crate::order::{sort_names, sorted_names, texts};
use crate::types::{entries_for, OpenResult, OpenWithApp};

verus! {

/// The enumeration step that failed.
pub enum EnumStep {
    /// Asking the shell for the handlers of the extension.
    Enumerate,
    /// Reading the name of one handler.
    GetName,
    /// Turning that name into text.
    ConvertName,
}

/// What one fetch from the shell's handler enumeration produced.
pub enum HandlerEvent {
    /// A handler, known by its name.
    Found(String),
    /// The enumeration has nothing more to give.
    Exhausted,
    /// A step failed, with the platform's diagnostic text.
    Failed(EnumStep, String),
}

/// The prefix that names a failed enumeration step in an error message.
pub open spec fn enum_step_prefix(step: EnumStep) -> Seq<char> {
    match step {
        EnumStep::Enumerate => "Failed to enumerate handlers: "@,
        EnumStep::GetName => "Failed to get handler name: "@,
        EnumStep::ConvertName => "Failed to convert name to string: "@,
    }
}

/// The error message for a failed enumeration step.
pub fn enumeration_failure(step: &EnumStep, detail: &str) -> (r: String)
    ensures
        r@ == enum_step_prefix(*step) + detail@,
{
    let prefix = match step {
        EnumStep::Enumerate => String::from_str("Failed to enumerate handlers: "),
        EnumStep::GetName => String::from_str("Failed to get handler name: "),
        EnumStep::ConvertName => String::from_str("Failed to convert name to string: "),
    };
    prefix.concat(detail)
}

/// One entry per name, in the same order, each selected by its own name.
pub fn entries(names: &Vec<String>) -> (r: Vec<OpenWithApp>)
    ensures
        entries_for(r@, texts(names@)),
{
    let mut out: Vec<OpenWithApp> = Vec::new();
    let mut i: usize = 0;
    while i < names.len()
        invariant
            i <= names.len(),
            entries_for(out@, texts(names@.subrange(0, i as int))),
        decreases names.len() - i,
    {
        let name = names[i].clone();
        out.push(OpenWithApp { id: name.clone(), name, icon: None });
        assert(texts(names@.subrange(0, i + 1)) =~= texts(names@.subrange(0, i as int)).push(
            names@[i as int]@,
        ));
        i = i + 1;
    }
    assert(names@.subrange(0, names@.len() as int) =~= names@);
    out
}

/// Collects the handlers of an extension for listing.
pub struct HandlerListing {
    names: Vec<String>,
}

impl HandlerListing {
    /// Names of the handlers collected so far, in enumeration order.
    pub closed spec fn collected(&self) -> Seq<Seq<char>> {
        texts(self.names@)
    }

    pub fn new() -> (r: Self)
        ensures
            r.collected() == Seq::<Seq<char>>::empty(),
    {
        let r = HandlerListing { names: Vec::new() };
        assert(r.collected() =~= Seq::<Seq<char>>::empty());
        r
    }

    /// Takes in one fetch. `None` asks for the next one; otherwise the
    /// listing is over: on exhaustion the collected handlers in ordinal
    /// order of their names, on the first failure its error message.
    pub fn step(&mut self, event: HandlerEvent) -> (r: Option<Result<Vec<OpenWithApp>, String>>)
        ensures
            match event {
                HandlerEvent::Found(name) => {
                    &&& r is None
                    &&& final(self).collected() == old(self).collected().push(name@)
                },
                HandlerEvent::Exhausted => match r {
                    Some(Ok(apps)) => entries_for(apps@, sorted_names(old(self).collected())),
                    _ => false,
                },
                HandlerEvent::Failed(step, detail) => match r {
                    Some(Err(message)) => message@ == enum_step_prefix(step) + detail@,
                    _ => false,
                },
            },
    {
        match event {
            HandlerEvent::Found(name) => {
                let ghost before = self.names@;
                self.names.push(name);
                assert(texts(self.names@) =~= texts(before).push(self.names@.last()@));
                None
            },
            HandlerEvent::Exhausted => {
                let sorted = sort_names(&self.names);
                Some(Ok(entries(&sorted)))
            },
            HandlerEvent::Failed(step, detail) => {
                Some(Err(enumeration_failure(&step, detail.as_str())))
            },
        }
    }
}

/// Listing is repeatable: two enumerations that report the same handlers,
/// in whatever order, produce the same list.
pub proof fn lemma_listing_repeatable(
    a: Seq<Seq<char>>,
    b: Seq<Seq<char>>,
    apps_a: Seq<OpenWithApp>,
    apps_b: Seq<OpenWithApp>,
)
    requires
        a.to_multiset() == b.to_multiset(),
        entries_for(apps_a, sorted_names(a)),
        entries_for(apps_b, sorted_names(b)),
    ensures
        apps_a.len() == apps_b.len(),
        forall|i: int|
            0 <= i < apps_a.len() ==> {
                &&& (#[trigger] apps_a[i]).id@ == apps_b[i].id@
                &&& apps_a[i].name@ == apps_b[i].name@
                &&& apps_a[i].icon is None && apps_b[i].icon is None
            },
{
    crate::order::lemma_sorted_names_order_independent(a, b);
    assert forall|i: int| 0 <= i < apps_a.len() implies {
        &&& (#[trigger] apps_a[i]).id@ == apps_b[i].id@
        &&& apps_a[i].name@ == apps_b[i].name@
        &&& apps_a[i].icon is None && apps_b[i].icon is None
    } by {
        assert(apps_a[i].describes(sorted_names(a)[i]));
        assert(apps_b[i].describes(sorted_names(b)[i]));
    }
}

/// What to do after one fetch while looking for a handler by name.
pub enum SearchAction {
    /// Fetch the next handler.
    Continue,
    /// The handler just fetched is the one asked for: open the file with it.
    Launch,
    /// The search is over, with this result.
    Finish(Result<OpenResult, String>),
}

/// Looks for the first handler whose name equals the requested one.
pub struct AppSearch {
    app_id: String,
}

impl AppSearch {
    /// Name of the handler looked for.
    pub closed spec fn target(&self) -> Seq<char> {
        self.app_id@
    }

    pub fn new(app_id: &str) -> (r: Self)
        ensures
            r.target() == app_id@,
    {
        AppSearch { app_id: String::from_str(app_id) }
    }

    /// Takes in one fetch: a handler of exactly the requested name is
    /// launched, another is passed over; exhaustion means the handler is not
    /// registered, and the first failure ends the search with its message.
    pub fn step(&self, event: &HandlerEvent) -> (r: SearchAction)
        ensures
            match *event {
                HandlerEvent::Found(name) => if name@ == self.target() {
                    r is Launch
                } else {
                    r is Continue
                },
                HandlerEvent::Exhausted => match r {
                    SearchAction::Finish(Ok(OpenResult::AppNotFound { app_id })) => app_id@
                        == self.target(),
                    _ => false,
                },
                HandlerEvent::Failed(step, detail) => match r {
                    SearchAction::Finish(Err(message)) => message@ == enum_step_prefix(step)
                        + detail@,
                    _ => false,
                },
            },
    {
        match event {
            HandlerEvent::Found(name) => {
                if *name == self.app_id {
                    SearchAction::Launch
                } else {
                    SearchAction::Continue
                }
            },
            HandlerEvent::Exhausted => {
                SearchAction::Finish(Ok(OpenResult::AppNotFound { app_id: self.app_id.clone() }))
            },
            HandlerEvent::Failed(step, detail) => {
                SearchAction::Finish(Err(enumeration_failure(step, detail.as_str())))
            },
        }
    }
}

} // verus!
