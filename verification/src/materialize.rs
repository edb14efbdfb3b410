//! Filling a directory with the wheels of some packages and of those that they depend on.
//!
//! The decisions are here; looking for files, fetching, converting and printing are left to
//! the caller, who does what [`Materializer::action`] says and hands the outcome to
//! [`Materializer::handle`].
use crate::chars;
use crate::external;
use crate::naming;
use crate::package;
use crate::package::PkgInfo;
use crate::sorted_map::SortedMap;
use crate::text;
use std::collections::VecDeque;
use vstd::prelude::*;

verus! {

// ---------------------------------------------------------------------------
// Actions and events
// ---------------------------------------------------------------------------

/// What is to be done next.
pub enum Action {
    /// Look for the file of a package.
    Locate(String),
    /// Fetch a package.
    Fetch(String),
    /// Look for the file of a package that was fetched.
    LocateAgain(String),
    /// Convert the file of a package.
    Convert(String),
    /// Nothing.
    Finish,
}

/// What an [`Action`] says.
pub enum ActionModel {
    Locate(Seq<char>),
    Fetch(Seq<char>),
    LocateAgain(Seq<char>),
    Convert(Seq<char>),
    Finish,
}

impl View for Action {
    type V = ActionModel;

    open spec fn view(&self) -> ActionModel {
        match self {
            Action::Locate(name) => ActionModel::Locate(name@),
            Action::Fetch(name) => ActionModel::Fetch(name@),
            Action::LocateAgain(name) => ActionModel::LocateAgain(name@),
            Action::Convert(name) => ActionModel::Convert(name@),
            Action::Finish => ActionModel::Finish,
        }
    }
}

/// What came of an action.
pub enum Event {
    /// The file was found.
    Found,
    /// The file was not found.
    NotFound,
    /// Fetching ended, well or not.
    Fetched,
    /// The package became the wheel with the given file name.
    Converted(String, PkgInfo),
    /// The package could not be converted, for the given reason.
    Failed(String),
}

/// What an [`Event`] says.
pub enum EventModel {
    Found,
    NotFound,
    Fetched,
    Converted(Seq<char>, package::InfoModel),
    Failed(Seq<char>),
}

impl View for Event {
    type V = EventModel;

    open spec fn view(&self) -> EventModel {
        match self {
            Event::Found => EventModel::Found,
            Event::NotFound => EventModel::NotFound,
            Event::Fetched => EventModel::Fetched,
            Event::Converted(wheel, info) => EventModel::Converted(wheel@, info@),
            Event::Failed(reason) => EventModel::Failed(reason@),
        }
    }
}

// ---------------------------------------------------------------------------
// Runs
// ---------------------------------------------------------------------------

/// What is known in the course of a run.
pub struct RunModel {
    /// What the names of python packages begin with.
    pub prefix: Seq<char>,
    /// Nothing is fetched.
    pub no_fetch: bool,
    /// The names still to be taken up.
    pub queue: Seq<Seq<char>>,
    /// The names taken up, in their order.
    pub visited: Seq<Seq<char>>,
    /// The file names of the wheels made.
    pub wheels: Seq<Seq<char>>,
    /// The packages that are needed and do not become wheels, with their versions.
    pub native: Map<Seq<char>, Seq<char>>,
    /// The packages without a file.
    pub missing: Seq<Seq<char>>,
    /// The packages that could not be converted, each with the reason.
    pub failed: Seq<Seq<char>>,
    /// What is to be done next.
    pub action: ActionModel,
}

/// A run that takes up the next name of the queue that it has not taken up before.
pub open spec fn taken_up(run: RunModel) -> RunModel
    decreases run.queue.len(),
{
    if run.queue.len() == 0 {
        RunModel { action: ActionModel::Finish, ..run }
    } else if run.visited.contains(run.queue[0]) {
        taken_up(RunModel { queue: run.queue.skip(1), ..run })
    } else {
        RunModel {
            queue: run.queue.skip(1),
            visited: run.visited.push(run.queue[0]),
            action: ActionModel::Locate(run.queue[0]),
            ..run
        }
    }
}

/// The names of the packages that are asked for.
pub open spec fn resolved_names(packages: Seq<Seq<char>>, prefix: Seq<char>) -> Seq<Seq<char>> {
    packages.map_values(|p: Seq<char>| naming::resolved(p, prefix))
}

/// A run at its beginning.
pub open spec fn begun(names: Seq<Seq<char>>, prefix: Seq<char>, no_fetch: bool) -> RunModel {
    taken_up(
        RunModel {
            prefix,
            no_fetch,
            queue: names,
            visited: seq![],
            wheels: seq![],
            native: Map::empty(),
            missing: seq![],
            failed: seq![],
            action: ActionModel::Finish,
        },
    )
}

/// The package is a python package, and becomes a wheel.
pub open spec fn is_python_dep(name: Seq<char>, prefix: Seq<char>) -> bool {
    text::starts_with(name, prefix + "-"@)
}

/// The package is needed when the wheels are used: neither a python package nor python.
pub open spec fn is_native_dep(name: Seq<char>, prefix: Seq<char>) -> bool {
    !is_python_dep(name, prefix) && !text::starts_with(name, "python3"@)
}

/// The python packages among some names.
pub open spec fn python_deps(names: Seq<Seq<char>>, prefix: Seq<char>) -> Seq<Seq<char>>
    decreases names.len(),
{
    if names.len() == 0 {
        seq![]
    } else if is_python_dep(names.last(), prefix) {
        python_deps(names.drop_last(), prefix).push(names.last())
    } else {
        python_deps(names.drop_last(), prefix)
    }
}

/// The packages needed beside the wheels, with more dependencies. A version that is known
/// stays.
pub open spec fn with_native(
    native: Map<Seq<char>, Seq<char>>,
    deps: Map<Seq<char>, Seq<char>>,
    prefix: Seq<char>,
) -> Map<Seq<char>, Seq<char>> {
    Map::new(
        |name: Seq<char>|
            native.contains_key(name) || (deps.contains_key(name) && is_native_dep(name, prefix)),
        |name: Seq<char>|
            if native.contains_key(name) {
                native[name]
            } else {
                deps[name]
            },
    )
}

/// A run after a package became a wheel.
pub open spec fn with_wheel(
    run: RunModel,
    wheel: Seq<char>,
    deps: Map<Seq<char>, Seq<char>>,
) -> RunModel {
    RunModel {
        wheels: run.wheels.push(wheel),
        queue: run.queue + python_deps(text::in_order(deps.dom()), run.prefix),
        native: with_native(run.native, deps, run.prefix),
        ..run
    }
}

/// A run after an event. One that does not come of the action that was asked for changes
/// nothing.
pub open spec fn handled(run: RunModel, event: EventModel) -> RunModel {
    match (run.action, event) {
        (ActionModel::Locate(name), EventModel::Found) => RunModel {
            action: ActionModel::Convert(name),
            ..run
        },
        (ActionModel::Locate(name), EventModel::NotFound) => if run.no_fetch {
            taken_up(RunModel { missing: run.missing.push(name), ..run })
        } else {
            RunModel { action: ActionModel::Fetch(name), ..run }
        },
        (ActionModel::Fetch(name), EventModel::Fetched) => RunModel {
            action: ActionModel::LocateAgain(name),
            ..run
        },
        (ActionModel::LocateAgain(name), EventModel::Found) => RunModel {
            action: ActionModel::Convert(name),
            ..run
        },
        (ActionModel::LocateAgain(name), EventModel::NotFound) => taken_up(
            RunModel { missing: run.missing.push(name), ..run },
        ),
        (ActionModel::Convert(name), EventModel::Converted(wheel, info)) => taken_up(
            with_wheel(run, wheel, info.deps),
        ),
        (ActionModel::Convert(name), EventModel::Failed(reason)) => taken_up(
            RunModel { failed: run.failed.push(name + ": "@ + reason), ..run },
        ),
        _ => run,
    }
}

// ---------------------------------------------------------------------------
// What holds in every run
// ---------------------------------------------------------------------------

/// The name that an action is about.
pub open spec fn subject(action: ActionModel) -> Option<Seq<char>> {
    match action {
        ActionModel::Locate(name) => Some(name),
        ActionModel::Fetch(name) => Some(name),
        ActionModel::LocateAgain(name) => Some(name),
        ActionModel::Convert(name) => Some(name),
        ActionModel::Finish => None,
    }
}

/// A run in good order: no name is taken up twice; the action is about the name taken up
/// last; each name before it became a wheel, is missing, or failed; the run ends with an
/// empty queue; and nothing is fetched where nothing is to be.
pub open spec fn in_good_order(run: RunModel) -> bool {
    &&& text::all_different(run.visited)
    &&& run.wheels.len() + run.missing.len() + run.failed.len() + (if run.action is Finish {
        0nat
    } else {
        1nat
    }) == run.visited.len()
    &&& match subject(run.action) {
        Some(name) => run.visited.len() > 0 && run.visited.last() == name,
        None => run.queue.len() == 0,
    }
    &&& run.no_fetch ==> !(run.action is Fetch) && !(run.action is LocateAgain)
}

/// Taking up a name keeps a run in good order once each name before is accounted for.
proof fn lemma_taken_up(run: RunModel)
    requires
        text::all_different(run.visited),
        run.wheels.len() + run.missing.len() + run.failed.len() == run.visited.len(),
    ensures
        in_good_order(taken_up(run)),
    decreases run.queue.len(),
{
    if run.queue.len() == 0 {
    } else if run.visited.contains(run.queue[0]) {
        lemma_taken_up(RunModel { queue: run.queue.skip(1), ..run });
    } else {
        let next = run.visited.push(run.queue[0]);
        assert forall|i: int, j: int| 0 <= i < j < next.len() implies next[i] != next[j] by {
            if j == run.visited.len() {
                assert(run.visited.contains(run.visited[i]));
            }
        }
    }
}

/// A run is in good order at its beginning.
pub proof fn lemma_begun_in_good_order(
    names: Seq<Seq<char>>,
    prefix: Seq<char>,
    no_fetch: bool,
)
    ensures
        in_good_order(begun(names, prefix, no_fetch)),
{
    lemma_taken_up(
        RunModel {
            prefix,
            no_fetch,
            queue: names,
            visited: seq![],
            wheels: seq![],
            native: Map::empty(),
            missing: seq![],
            failed: seq![],
            action: ActionModel::Finish,
        },
    );
}

/// Every event leaves a run in good order.
pub proof fn lemma_handled_in_good_order(run: RunModel, event: EventModel)
    requires
        in_good_order(run),
    ensures
        in_good_order(handled(run, event)),
{
    match (run.action, event) {
        (ActionModel::Locate(name), EventModel::NotFound) => {
            if run.no_fetch {
                lemma_taken_up(RunModel { missing: run.missing.push(name), ..run });
            }
        },
        (ActionModel::LocateAgain(name), EventModel::NotFound) => {
            lemma_taken_up(RunModel { missing: run.missing.push(name), ..run });
        },
        (ActionModel::Convert(name), EventModel::Converted(wheel, info)) => {
            lemma_taken_up(with_wheel(run, wheel, info.deps));
        },
        (ActionModel::Convert(name), EventModel::Failed(reason)) => {
            lemma_taken_up(
                RunModel { failed: run.failed.push(name + ": "@ + reason), ..run },
            );
        },
        _ => {},
    }
}

// ---------------------------------------------------------------------------
// Reports
// ---------------------------------------------------------------------------

/// The lines that say how many wheels there are.
pub open spec fn head_lines(run: RunModel, outdir: Seq<char>) -> Seq<Seq<char>> {
    seq![
        seq![],
        "materialized "@ + text::decimal(run.wheels.len()) + " wheel(s) into "@ + outdir,
    ]
}

/// The lines for the packages needed beside the wheels.
pub open spec fn native_lines(
    names: Seq<Seq<char>>,
    native: Map<Seq<char>, Seq<char>>,
    installed: Seq<bool>,
) -> Seq<Seq<char>>
    decreases names.len(),
{
    if names.len() == 0 {
        seq![]
    } else {
        native_lines(names.drop_last(), native, installed).push(
            "  "@ + names.last() + " "@ + native[names.last()] + if installed[names.len() - 1] {
                " [installed]"@
            } else {
                " [MISSING — pkg install]"@
            },
        )
    }
}

/// The part of a report on the packages needed beside the wheels.
pub open spec fn native_part(native: Map<Seq<char>, Seq<char>>, installed: Seq<bool>) -> Seq<
    Seq<char>,
> {
    let names = text::in_order(native.dom());
    if names.len() == 0 {
        seq![]
    } else {
        seq![
            "native pkg deps required at runtime (converted wheels link against /usr/local/lib):"@,
        ] + native_lines(names, native, installed)
    }
}

/// The part of a report on the packages without a file.
pub open spec fn missing_lines(missing: Seq<Seq<char>>) -> Seq<Seq<char>> {
    if missing.len() == 0 {
        seq![]
    } else {
        seq![
            "no .pkg found for: "@ + text::join(missing, ", "@),
            "  (fetch with: doas pkg fetch -y "@ + text::join(missing, " "@) + ")"@,
        ]
    }
}

/// The part of a report on the packages that could not be converted.
pub open spec fn failed_lines(failed: Seq<Seq<char>>) -> Seq<Seq<char>> {
    failed.map_values(|f: Seq<char>| "conversion failed: "@ + f)
}

/// The report at the end of a run.
pub open spec fn report_of(run: RunModel, outdir: Seq<char>, installed: Seq<bool>) -> Seq<
    Seq<char>,
> {
    head_lines(run, outdir) + native_part(run.native, installed) + missing_lines(run.missing)
        + failed_lines(run.failed)
}

// ---------------------------------------------------------------------------
// Running
// ---------------------------------------------------------------------------

/// A run over some packages and their dependencies.
pub struct Materializer {
    prefix: String,
    no_fetch: bool,
    queue: VecDeque<String>,
    visited: Vec<Vec<char>>,
    wheels: Vec<String>,
    native: SortedMap<String>,
    missing: Vec<Vec<char>>,
    failed: Vec<String>,
    action: Action,
}

impl View for Materializer {
    type V = RunModel;

    closed spec fn view(&self) -> RunModel {
        RunModel {
            prefix: self.prefix@,
            no_fetch: self.no_fetch,
            queue: text::strings(self.queue@),
            visited: text::views(self.visited@),
            wheels: text::strings(self.wheels@),
            native: self.native@,
            missing: text::views(self.missing@),
            failed: text::strings(self.failed@),
            action: self.action@,
        }
    }
}

/// See [`taken_up`].
fn take_up(
    queue: &mut VecDeque<String>,
    visited: &mut Vec<Vec<char>>,
    Ghost(run): Ghost<RunModel>,
) -> (r: Action)
    requires
        run.queue == text::strings(old(queue)@),
        run.visited == text::views(old(visited)@),
    ensures
        taken_up(run) == (RunModel {
            queue: text::strings(final(queue)@),
            visited: text::views(final(visited)@),
            action: r@,
            ..run
        }),
{
    let ghost mut left = run;
    loop
        invariant
            left == (RunModel { queue: text::strings(queue@), ..run }),
            left.visited == text::views(visited@),
            taken_up(run) == taken_up(left),
        decreases queue@.len(),
    {
        match queue.pop_front() {
            Some(name) => {
                proof {
                    assert(left.queue[0] == name@);
                    assert(text::strings(queue@) =~= left.queue.skip(1));
                }
                let cs = chars::chars_of(&name);
                if !chars::has(visited, &cs) {
                    let ghost held = text::views(visited@);
                    visited.push(cs);
                    proof {
                        assert(text::views(visited@) =~= held.push(name@));
                    }
                    return Action::Locate(name);
                }
                proof {
                    left = RunModel { queue: left.queue.skip(1), ..left };
                }
            },
            None => {
                return Action::Finish;
            },
        }
    }
}

/// The packages needed beside the wheels, with those dependencies that are among some names.
spec fn native_among(
    native: Map<Seq<char>, Seq<char>>,
    deps: Map<Seq<char>, Seq<char>>,
    names: Seq<Seq<char>>,
    prefix: Seq<char>,
) -> Map<Seq<char>, Seq<char>> {
    Map::new(
        |name: Seq<char>|
            native.contains_key(name) || (names.contains(name) && is_native_dep(name, prefix)),
        |name: Seq<char>|
            if native.contains_key(name) {
                native[name]
            } else {
                deps[name]
            },
    )
}

/// Sorts the dependencies of a package into those that become wheels and those that do not.
fn add_deps(
    deps: &SortedMap<String>,
    prefix: &str,
    queue: &mut VecDeque<String>,
    native: &mut SortedMap<String>,
)
    ensures
        text::strings(final(queue)@) == text::strings(old(queue)@) + python_deps(
            text::in_order(deps@.dom()),
            prefix@,
        ),
        final(native)@ == with_native(old(native)@, deps@, prefix@),
{
    let mut dash_prefix = chars::chars_of(prefix);
    chars::extend_str(&mut dash_prefix, "-");
    let python = chars::chars_of("python3");
    let total: usize = deps.len();
    let ghost order = deps.order();
    let ghost first = text::strings(queue@);
    let mut i: usize = 0;
    proof {
        assert(first + python_deps(order.take(0), prefix@) =~= first);
        assert(native@ =~= native_among(old(native)@, deps@, order.take(0), prefix@));
    }
    while i < total
        invariant
            i <= total,
            total == order.len(),
            order == deps.order(),
            dash_prefix@ == prefix@ + "-"@,
            python@ == "python3"@,
            text::strings(queue@) == first + python_deps(order.take(i as int), prefix@),
            native@ == native_among(old(native)@, deps@, order.take(i as int), prefix@),
        decreases total - i,
    {
        let dep = deps.key_at(i);
        let ghost all = order.take(i + 1);
        proof {
            assert(all.drop_last() =~= order.take(i as int));
            assert(all.last() == dep@);
            assert forall|name: Seq<char>| all.contains(name) <==> order.take(i as int).contains(
                name,
            ) || name == dep@ by {
                if all.contains(name) {
                    let k = choose|k: int| 0 <= k < all.len() && all[k] == name;
                    if k < i {
                        assert(order.take(i as int)[k] == name);
                    }
                } else {
                    if order.take(i as int).contains(name) {
                        let k = choose|k: int|
                            0 <= k < order.take(i as int).len() && order.take(i as int)[k] == name;
                        assert(all[k] == name);
                    }
                    assert(all.contains(all[i as int]));
                }
            }
        }
        if chars::starts_with(dep, &dash_prefix) {
            let ghost before = text::strings(queue@);
            queue.push_back(chars::string_of(dep));
            proof {
                assert(text::strings(queue@) =~= before.push(dep@));
                assert(text::strings(queue@) =~= first + python_deps(all, prefix@));
            }
        } else if !chars::starts_with(dep, &python) {
            if native.get(dep).is_none() {
                let version = deps.value_at(i).clone();
                native.insert(chars::copy_of(dep), version);
            }
        }
        proof {
            assert(native@ =~= native_among(old(native)@, deps@, all, prefix@));
        }
        i = i + 1;
    }
    proof {
        assert(order.take(total as int) =~= order);
        assert(native@ =~= with_native(old(native)@, deps@, prefix@));
    }
}

impl Materializer {
    #[verifier::type_invariant]
    spec fn well_formed(&self) -> bool {
        in_good_order(self@)
    }

    /// Begins a run over the packages with the given names.
    pub fn begin(names: Vec<String>, pyprefix: &str, no_fetch: bool) -> (r: Materializer)
        ensures
            r@ == begun(text::strings(names@), pyprefix@, no_fetch),
    {
        let ghost start = RunModel {
            prefix: pyprefix@,
            no_fetch,
            queue: text::strings(names@),
            visited: seq![],
            wheels: seq![],
            native: Map::empty(),
            missing: seq![],
            failed: seq![],
            action: ActionModel::Finish,
        };
        let mut queue: VecDeque<String> = VecDeque::new();
        let mut i: usize = 0;
        while i < names.len()
            invariant
                i <= names.len(),
                text::strings(queue@) =~= text::strings(names@).take(i as int),
            decreases names.len() - i,
        {
            let ghost before = text::strings(queue@);
            let name = names[i].clone();
            queue.push_back(name);
            proof {
                assert(text::strings(names@)[i as int] == name@);
                assert(text::strings(queue@) =~= before.push(name@));
            }
            i = i + 1;
        }
        let mut visited: Vec<Vec<char>> = Vec::new();
        let wheels: Vec<String> = Vec::new();
        let missing: Vec<Vec<char>> = Vec::new();
        let failed: Vec<String> = Vec::new();
        proof {
            assert(text::strings(queue@) =~= start.queue);
            assert(text::views(visited@) =~= start.visited);
            assert(text::strings(wheels@) =~= start.wheels);
            assert(text::views(missing@) =~= start.missing);
            assert(text::strings(failed@) =~= start.failed);
            lemma_begun_in_good_order(start.queue, start.prefix, no_fetch);
        }
        let action = take_up(&mut queue, &mut visited, Ghost(start));
        Materializer {
            prefix: chars::string_of(&chars::chars_of(pyprefix)),
            no_fetch,
            queue,
            visited,
            wheels,
            native: SortedMap::new(),
            missing,
            failed,
            action,
        }
    }

    /// What is to be done next.
    pub fn action(&self) -> (r: &Action)
        ensures
            r@ == self@.action,
    {
        &self.action
    }

    /// Takes in what came of the action.
    pub fn handle(self, event: Event) -> (r: Materializer)
        ensures
            r@ == handled(self@, event@),
    {
        proof {
            use_type_invariant(&self);
            lemma_handled_in_good_order(self@, event@);
        }
        let ghost run = self@;
        let Materializer {
            prefix,
            no_fetch,
            mut queue,
            mut visited,
            mut wheels,
            mut native,
            mut missing,
            mut failed,
            action,
        } = self;
        let next = match (action, event) {
            (Action::Locate(name), Event::Found) => Action::Convert(name),
            (Action::Locate(name), Event::NotFound) => if no_fetch {
                let ghost held = text::views(missing@);
                missing.push(chars::chars_of(&name));
                let ghost now = RunModel { missing: held.push(name@), ..run };
                proof {
                    assert(text::views(missing@) =~= now.missing);
                }
                take_up(&mut queue, &mut visited, Ghost(now))
            } else {
                Action::Fetch(name)
            },
            (Action::Fetch(name), Event::Fetched) => Action::LocateAgain(name),
            (Action::LocateAgain(name), Event::Found) => Action::Convert(name),
            (Action::LocateAgain(name), Event::NotFound) => {
                let ghost held = text::views(missing@);
                missing.push(chars::chars_of(&name));
                let ghost now = RunModel { missing: held.push(name@), ..run };
                proof {
                    assert(text::views(missing@) =~= now.missing);
                }
                take_up(&mut queue, &mut visited, Ghost(now))
            },
            (Action::Convert(name), Event::Converted(wheel, info)) => {
                let ghost held = text::strings(wheels@);
                wheels.push(wheel);
                add_deps(&info.deps, &prefix, &mut queue, &mut native);
                let ghost now = with_wheel(run, wheel@, info@.deps);
                proof {
                    assert(text::strings(wheels@) =~= held.push(wheel@));
                }
                take_up(&mut queue, &mut visited, Ghost(now))
            },
            (Action::Convert(name), Event::Failed(reason)) => {
                let ghost held = text::strings(failed@);
                let mut note = chars::chars_of(&name);
                chars::extend_str(&mut note, ": ");
                chars::extend_str(&mut note, &reason);
                failed.push(chars::string_of(&note));
                let ghost now = RunModel { failed: held.push(note@), ..run };
                proof {
                    assert(text::strings(failed@) =~= now.failed);
                }
                take_up(&mut queue, &mut visited, Ghost(now))
            },
            (action, _) => action,
        };
        Materializer {
            prefix,
            no_fetch,
            queue,
            visited,
            wheels,
            native,
            missing,
            failed,
            action: next,
        }
    }

    /// Begins a run over the packages that are asked for, of a python version; none where
    /// nothing is asked for.
    pub fn new(packages: &Vec<String>, python: &str, no_fetch: bool) -> (r: Option<Materializer>)
        ensures
            match r {
                Some(m) => packages@.len() > 0 && m@ == begun(
                    resolved_names(text::strings(packages@), naming::prefix_for(python@)),
                    naming::prefix_for(python@),
                    no_fetch,
                ),
                None => packages@.len() == 0,
            },
            forall|i: int|
                0 <= i < packages@.len() && !text::starts_with(
                    (#[trigger] packages@[i])@,
                    "py3"@,
                ) ==> external::lowers(packages@[i]@),
    {
        if packages.len() == 0 {
            return None;
        }
        let pyprefix = naming::python_prefix(python);
        let ghost wanted = resolved_names(text::strings(packages@), pyprefix@);
        let mut names: Vec<String> = Vec::new();
        let mut i: usize = 0;
        while i < packages.len()
            invariant
                i <= packages.len(),
                wanted == resolved_names(text::strings(packages@), pyprefix@),
                text::strings(names@) =~= wanted.take(i as int),
                forall|k: int|
                    0 <= k < i && !text::starts_with((#[trigger] packages@[k])@, "py3"@)
                        ==> external::lowers(packages@[k]@),
            decreases packages.len() - i,
        {
            let ghost before = text::strings(names@);
            let name = naming::resolve_pkg_name(&packages[i], &pyprefix);
            names.push(name);
            proof {
                assert(wanted[i as int] == name@);
                assert(text::strings(names@) =~= before.push(name@));
            }
            i = i + 1;
        }
        proof {
            assert(wanted.take(packages.len() as int) =~= wanted);
        }
        Some(Materializer::begin(names, &pyprefix, no_fetch))
    }

    /// The packages needed beside the wheels, in order.
    pub fn native_deps(&self) -> (r: Vec<String>)
        ensures
            text::strings(r@) == text::in_order(self@.native.dom()),
    {
        let mut out: Vec<String> = Vec::new();
        let total: usize = self.native.len();
        let ghost order = self.native.order();
        let mut i: usize = 0;
        while i < total
            invariant
                i <= total,
                total == order.len(),
                order == self.native.order(),
                text::strings(out@) =~= order.take(i as int),
            decreases total - i,
        {
            let ghost before = text::strings(out@);
            let name = chars::string_of(self.native.key_at(i));
            out.push(name);
            proof {
                assert(text::strings(out@) =~= before.push(name@));
            }
            i = i + 1;
        }
        proof {
            assert(order.take(total as int) =~= order);
        }
        out
    }

    /// The number of packages that did not become wheels.
    pub fn failures(&self) -> (r: usize)
        ensures
            r == self@.missing.len() + self@.failed.len(),
    {
        proof {
            use_type_invariant(self);
            assert(self@.visited.len() == self.visited.len());
        }
        self.missing.len() + self.failed.len()
    }

    /// The lines to print at the end of a run, given the directory with the wheels and, for
    /// each package needed beside them, whether it is installed.
    pub fn report(&self, outdir: &str, installed: &Vec<bool>) -> (r: Vec<String>)
        requires
            installed@.len() == text::in_order(self@.native.dom()).len(),
        ensures
            text::strings(r@) == report_of(self@, outdir@, installed@),
    {
        let mut out: Vec<String> = Vec::new();
        let mut head = chars::chars_of("materialized ");
        chars::extend(&mut head, &chars::decimal(self.wheels.len() as u64));
        chars::extend_str(&mut head, " wheel(s) into ");
        chars::extend_str(&mut head, outdir);
        out.push(String::new());
        out.push(chars::string_of(&head));
        proof {
            assert(text::strings(out@) =~= head_lines(self@, outdir@));
        }
        let total: usize = self.native.len();
        let ghost order = self.native.order();
        if total > 0 {
            out.push(chars::string_of(&chars::chars_of(
                "native pkg deps required at runtime (converted wheels link against /usr/local/lib):",
            )));
        }
        let ghost before = text::strings(out@);
        let mut i: usize = 0;
        proof {
            assert(before + native_lines(order.take(0), self@.native, installed@) =~= before);
        }
        while i < total
            invariant
                i <= total,
                total == order.len(),
                total == installed@.len(),
                order == self.native.order(),
                self@.native == self.native@,
                text::strings(out@) == before + native_lines(
                    order.take(i as int),
                    self@.native,
                    installed@,
                ),
            decreases total - i,
        {
            let ghost held = text::strings(out@);
            let mut line = chars::chars_of("  ");
            chars::extend(&mut line, self.native.key_at(i));
            chars::extend_str(&mut line, " ");
            chars::extend_str(&mut line, self.native.value_at(i));
            chars::extend_str(
                &mut line,
                if installed[i] {
                    " [installed]"
                } else {
                    " [MISSING — pkg install]"
                },
            );
            out.push(chars::string_of(&line));
            proof {
                assert(text::strings(out@) =~= held.push(line@));
                assert(order.take(i + 1).drop_last() =~= order.take(i as int));
                assert(order.take(i + 1).last() == order[i as int]);
                assert(text::strings(out@) =~= before + native_lines(
                    order.take(i + 1),
                    self@.native,
                    installed@,
                ));
            }
            i = i + 1;
        }
        proof {
            assert(order.take(total as int) =~= order);
            assert(text::strings(out@) =~= head_lines(self@, outdir@) + native_part(
                self@.native,
                installed@,
            ));
        }
        if self.missing.len() > 0 {
            let ghost held = text::strings(out@);
            let mut names = chars::chars_of("no .pkg found for: ");
            chars::extend(&mut names, &chars::join(&self.missing, &chars::chars_of(", ")));
            let mut advice = chars::chars_of("  (fetch with: doas pkg fetch -y ");
            chars::extend(&mut advice, &chars::join(&self.missing, &chars::chars_of(" ")));
            chars::extend_str(&mut advice, ")");
            out.push(chars::string_of(&names));
            out.push(chars::string_of(&advice));
            proof {
                assert(text::strings(out@) =~= held + missing_lines(self@.missing));
            }
        } else {
            proof {
                assert(text::strings(out@) + missing_lines(self@.missing) =~= text::strings(out@));
            }
        }
        let ghost ahead = text::strings(out@);
        let mut n: usize = 0;
        while n < self.failed.len()
            invariant
                n <= self.failed.len(),
                self@.failed == text::strings(self.failed@),
                text::strings(out@) =~= ahead + failed_lines(self@.failed.take(n as int)),
            decreases self.failed.len() - n,
        {
            let ghost held = text::strings(out@);
            let mut line = chars::chars_of("conversion failed: ");
            chars::extend_str(&mut line, &self.failed[n]);
            out.push(chars::string_of(&line));
            proof {
                assert(self@.failed[n as int] == self.failed@[n as int]@);
                assert(text::strings(out@) =~= held.push(line@));
                assert(failed_lines(self@.failed.take(n + 1)) =~= failed_lines(
                    self@.failed.take(n as int),
                ).push(line@));
            }
            n = n + 1;
        }
        proof {
            assert(self@.failed.take(self.failed.len() as int) =~= self@.failed);
        }
        out
    }
}

} // verus!
