//! What each event does to a run, and what a run says at its end.
use crate::laws::runs;
use crate::laws::texts;
use crate::materialize;
use crate::materialize::ActionModel;
use crate::materialize::EventModel;
use crate::materialize::RunModel;
use crate::package;
use crate::text;
use vstd::prelude::*;

verus! {

// ---------------------------------------------------------------------------
// Dependencies
// ---------------------------------------------------------------------------

/// A dependency whose name is the prefix, a dash and anything at all waits to be taken up, or
/// was taken up, and is not noted as needed beside the wheels.
pub proof fn lemma_python_dependency(
    run: RunModel,
    wheel: Seq<char>,
    info: package::InfoModel,
    rest: Seq<char>,
)
    requires
        run.action is Convert,
        info.deps.dom().finite(),
    ensures
        ({
            let next = materialize::handled(run, EventModel::Converted(wheel, info));
            let name = run.prefix + "-"@ + rest;
            &&& info.deps.contains_key(name) ==> next.queue.contains(name)
                || next.visited.contains(name)
            &&& next.native.contains_key(name) <==> run.native.contains_key(name)
            &&& run.native.contains_key(name) ==> next.native[name] == run.native[name]
        }),
{
    let name = run.prefix + "-"@ + rest;
    let event = EventModel::Converted(wheel, info);
    assert(name == (run.prefix + "-"@) + rest);
    texts::lemma_starts_with(name, run.prefix + "-"@);
    runs::lemma_handled_known(run, event, name);
    runs::lemma_native_noted(run, wheel, info, name);
}

/// A dependency whose name does not begin with the prefix and a dash is not taken up for that;
/// it is noted with its version unless its name begins with `python3`.
pub proof fn lemma_other_dependency(
    run: RunModel,
    wheel: Seq<char>,
    info: package::InfoModel,
    name: Seq<char>,
)
    requires
        run.action is Convert,
        info.deps.dom().finite(),
        forall|rest: Seq<char>| name != #[trigger] (run.prefix + "-"@ + rest),
    ensures
        ({
            let next = materialize::handled(run, EventModel::Converted(wheel, info));
            &&& next.queue.contains(name) || next.visited.contains(name) <==> run.queue.contains(
                name,
            ) || run.visited.contains(name)
            &&& run.native.contains_key(name) ==> next.native.contains_key(name)
                && next.native[name] == run.native[name]
            &&& !run.native.contains_key(name) && info.deps.contains_key(name) && (forall|
                rest: Seq<char>,
            |
                name != #[trigger] ("python3"@ + rest)) ==> next.native.contains_key(name)
                && next.native[name] == info.deps[name]
            &&& !run.native.contains_key(name) && (exists|rest: Seq<char>|
                name == #[trigger] ("python3"@ + rest)) ==> !next.native.contains_key(name)
        }),
{
    texts::lemma_starts_with(name, run.prefix + "-"@);
    texts::lemma_starts_with(name, "python3"@);
    assert(!text::starts_with(name, run.prefix + "-"@)) by {
        if text::starts_with(name, run.prefix + "-"@) {
            let rest = choose|rest: Seq<char>| name == #[trigger] ((run.prefix + "-"@) + rest);
            assert(name == run.prefix + "-"@ + rest);
        }
    }
    runs::lemma_handled_known(run, EventModel::Converted(wheel, info), name);
    runs::lemma_native_noted(run, wheel, info, name);
}

/// What is no dependency of a converted package is neither taken up for it nor noted.
pub proof fn lemma_no_dependency(
    run: RunModel,
    wheel: Seq<char>,
    info: package::InfoModel,
    name: Seq<char>,
)
    requires
        run.action is Convert,
        info.deps.dom().finite(),
        !info.deps.contains_key(name),
    ensures
        ({
            let next = materialize::handled(run, EventModel::Converted(wheel, info));
            &&& next.queue.contains(name) || next.visited.contains(name) <==> run.queue.contains(
                name,
            ) || run.visited.contains(name)
            &&& next.native.contains_key(name) <==> run.native.contains_key(name)
            &&& run.native.contains_key(name) ==> next.native[name] == run.native[name]
        }),
{
    runs::lemma_handled_known(run, EventModel::Converted(wheel, info), name);
    runs::lemma_native_noted(run, wheel, info, name);
}

// ---------------------------------------------------------------------------
// What comes next
// ---------------------------------------------------------------------------

/// The run drops some waiting names, all of them taken up before, and takes up the next one, which
/// was not; or it drops them all, and ends.
pub open spec fn goes_on_at(
    visited: Seq<Seq<char>>,
    waiting: Seq<Seq<char>>,
    next: RunModel,
    k: int,
) -> bool {
    &&& 0 <= k <= waiting.len()
    &&& forall|j: int| 0 <= j < k ==> visited.contains(#[trigger] waiting[j])
    &&& k < waiting.len() ==> {
        &&& !visited.contains(waiting[k])
        &&& next.queue == waiting.skip(k + 1)
        &&& next.visited == visited.push(waiting[k])
        &&& next.action == ActionModel::Locate(waiting[k])
    }
    &&& k == waiting.len() ==> {
        &&& next.queue.len() == 0
        &&& next.visited == visited
        &&& next.action == ActionModel::Finish
    }
}

/// The run takes up the first of the waiting names that was not taken up before, and ends where
/// there is none.
pub open spec fn goes_on(visited: Seq<Seq<char>>, waiting: Seq<Seq<char>>, next: RunModel) -> bool {
    exists|k: int| #[trigger] goes_on_at(visited, waiting, next, k)
}

/// Nothing changed but the names taken up, those waiting, and the action.
pub open spec fn only_goes_on(run: RunModel, next: RunModel) -> bool {
    &&& next.prefix == run.prefix
    &&& next.no_fetch == run.no_fetch
    &&& next.wheels == run.wheels
    &&& next.native == run.native
    &&& next.missing == run.missing
    &&& next.failed == run.failed
    &&& goes_on(run.visited, run.queue, next)
}

proof fn lemma_goes_on(run: RunModel)
    ensures
        only_goes_on(run, materialize::taken_up(run)),
    decreases run.queue.len(),
{
    let next = materialize::taken_up(run);
    let waiting = run.queue;
    if waiting.len() == 0 {
        assert(goes_on_at(run.visited, waiting, next, 0));
    } else if run.visited.contains(waiting[0]) {
        let tail = RunModel { queue: waiting.skip(1), ..run };
        lemma_goes_on(tail);
        let k = choose|k: int| #[trigger] goes_on_at(run.visited, tail.queue, next, k);
        assert forall|j: int| 0 <= j < k + 1 implies run.visited.contains(
            #[trigger] waiting[j],
        ) by {
            if j > 0 {
                assert(tail.queue[j - 1] == waiting[j]);
            }
        }
        if k < tail.queue.len() {
            assert(waiting.skip(k + 2) =~= tail.queue.skip(k + 1));
            assert(waiting[k + 1] == tail.queue[k]);
        }
        assert(goes_on_at(run.visited, waiting, next, k + 1));
    } else {
        assert(goes_on_at(run.visited, waiting, next, 0));
    }
}

/// A run begins with the first name asked for, and with nothing done.
pub proof fn lemma_begins(names: Seq<Seq<char>>, prefix: Seq<char>, no_fetch: bool)
    ensures
        ({
            let run = materialize::begun(names, prefix, no_fetch);
            &&& run.prefix == prefix
            &&& run.no_fetch == no_fetch
            &&& run.wheels.len() == 0
            &&& run.native.dom() == Set::<Seq<char>>::empty()
            &&& run.missing.len() == 0
            &&& run.failed.len() == 0
            &&& names.len() > 0 ==> run.action == ActionModel::Locate(names[0]) && run.visited
                == seq![names[0]] && run.queue == names.skip(1)
            &&& names.len() == 0 ==> run.action == ActionModel::Finish && run.visited.len() == 0
                && run.queue.len() == 0
        }),
{
    let run = materialize::begun(names, prefix, no_fetch);
    assert(!Seq::<Seq<char>>::empty().contains(names[0]));
    assert(run.native.dom() =~= Set::<Seq<char>>::empty());
    if names.len() > 0 {
        assert(run.visited =~= seq![names[0]]);
    }
}

/// What is found is converted; what is not found is fetched, and looked for again, unless
/// nothing is to be fetched.
pub proof fn lemma_looked_for(run: RunModel, name: Seq<char>)
    ensures
        run.action == ActionModel::Locate(name) ==> materialize::handled(run, EventModel::Found)
            == (RunModel { action: ActionModel::Convert(name), ..run }),
        run.action == ActionModel::LocateAgain(name) ==> materialize::handled(
            run,
            EventModel::Found,
        ) == (RunModel { action: ActionModel::Convert(name), ..run }),
        run.action == ActionModel::Locate(name) && !run.no_fetch ==> materialize::handled(
            run,
            EventModel::NotFound,
        ) == (RunModel { action: ActionModel::Fetch(name), ..run }),
        run.action == ActionModel::Fetch(name) ==> materialize::handled(run, EventModel::Fetched)
            == (RunModel { action: ActionModel::LocateAgain(name), ..run }),
        (run.action == ActionModel::Locate(name) && run.no_fetch) || run.action
            == ActionModel::LocateAgain(name) ==> only_goes_on(
            (RunModel { missing: run.missing.push(name), ..run }),
            materialize::handled(run, EventModel::NotFound),
        ),
{
    lemma_goes_on(RunModel { missing: run.missing.push(name), ..run });
}

/// A package that could not be converted is noted with the reason.
pub proof fn lemma_conversion_failed(run: RunModel, name: Seq<char>, reason: Seq<char>)
    requires
        run.action == ActionModel::Convert(name),
    ensures
        only_goes_on(
            (RunModel { failed: run.failed.push(name + ": "@ + reason), ..run }),
            materialize::handled(run, EventModel::Failed(reason)),
        ),
{
    lemma_goes_on(RunModel { failed: run.failed.push(name + ": "@ + reason), ..run });
}

/// A package that became a wheel is noted, and the python packages that it depends on wait
/// behind those that waited before, each once, in order.
pub proof fn lemma_converted(
    run: RunModel,
    name: Seq<char>,
    wheel: Seq<char>,
    info: package::InfoModel,
) -> (more: Seq<Seq<char>>)
    requires
        run.action == ActionModel::Convert(name),
        info.deps.dom().finite(),
    ensures
        ({
            let next = materialize::handled(run, EventModel::Converted(wheel, info));
            &&& next.prefix == run.prefix
            &&& next.no_fetch == run.no_fetch
            &&& next.wheels == run.wheels.push(wheel)
            &&& next.missing == run.missing
            &&& next.failed == run.failed
            &&& goes_on(run.visited, run.queue + more, next)
        }),
        forall|i: int, j: int|
            0 <= i < j < more.len() ==> text::lt(#[trigger] more[i], #[trigger] more[j]),
        forall|rest: Seq<char>| #[trigger]
            more.contains(run.prefix + "-"@ + rest) <==> info.deps.contains_key(
                run.prefix + "-"@ + rest,
            ),
        forall|dep: Seq<char>| #[trigger]
            more.contains(dep) ==> exists|rest: Seq<char>|
                dep == #[trigger] (run.prefix + "-"@ + rest),
{
    let order = text::in_order(info.deps.dom());
    let more = materialize::python_deps(order, run.prefix);
    text::lemma_in_order(info.deps.dom());
    lemma_python_deps_ordered(order, run.prefix);
    lemma_goes_on(materialize::with_wheel(run, wheel, info.deps));
    assert forall|rest: Seq<char>| #[trigger]
        more.contains(run.prefix + "-"@ + rest) <==> info.deps.contains_key(
            run.prefix + "-"@ + rest,
        ) by {
        let dep = run.prefix + "-"@ + rest;
        texts::lemma_starts_with(dep, run.prefix + "-"@);
        runs::lemma_python_deps(order, run.prefix, dep);
    }
    assert forall|dep: Seq<char>| #[trigger] more.contains(dep) implies exists|rest: Seq<char>|
        dep == #[trigger] (run.prefix + "-"@ + rest) by {
        runs::lemma_python_deps(order, run.prefix, dep);
        texts::lemma_starts_with(dep, run.prefix + "-"@);
        let rest = choose|rest: Seq<char>| dep == #[trigger] ((run.prefix + "-"@) + rest);
        assert(dep == run.prefix + "-"@ + rest);
    }
    more
}

/// The python packages among names in order are in order.
proof fn lemma_python_deps_ordered(names: Seq<Seq<char>>, prefix: Seq<char>)
    requires
        forall|i: int, j: int|
            0 <= i < j < names.len() ==> text::lt(#[trigger] names[i], #[trigger] names[j]),
    ensures
        ({
            let more = materialize::python_deps(names, prefix);
            forall|i: int, j: int|
                0 <= i < j < more.len() ==> text::lt(#[trigger] more[i], #[trigger] more[j])
        }),
    decreases names.len(),
{
    if names.len() > 0 {
        let head = names.drop_last();
        lemma_python_deps_ordered(head, prefix);
        let before = materialize::python_deps(head, prefix);
        let more = materialize::python_deps(names, prefix);
        assert forall|i: int, j: int| 0 <= i < j < more.len() implies text::lt(
            #[trigger] more[i],
            #[trigger] more[j],
        ) by {
            if j == before.len() {
                assert(before.contains(before[i]));
                runs::lemma_python_deps(head, prefix, before[i]);
                let k = choose|k: int| 0 <= k < head.len() && head[k] == before[i];
                assert(text::lt(names[k], names[names.len() - 1]));
            } else {
                assert(text::lt(before[i], before[j]));
            }
        }
    }
}

/// An event that does not come of the action changes nothing.
pub proof fn lemma_out_of_turn(
    run: RunModel,
    wheel: Seq<char>,
    info: package::InfoModel,
    reason: Seq<char>,
)
    ensures
        !(run.action is Locate) && !(run.action is LocateAgain) ==> materialize::handled(
            run,
            EventModel::Found,
        ) == run && materialize::handled(run, EventModel::NotFound) == run,
        !(run.action is Fetch) ==> materialize::handled(run, EventModel::Fetched) == run,
        !(run.action is Convert) ==> materialize::handled(
            run,
            EventModel::Converted(wheel, info),
        ) == run && materialize::handled(run, EventModel::Failed(reason)) == run,
{
}

// ---------------------------------------------------------------------------
// Reports
// ---------------------------------------------------------------------------

proof fn lemma_native_lines(
    names: Seq<Seq<char>>,
    native: Map<Seq<char>, Seq<char>>,
    installed: Seq<bool>,
)
    ensures
        ({
            let lines = materialize::native_lines(names, native, installed);
            &&& lines.len() == names.len()
            &&& forall|k: int|
                0 <= k < names.len() ==> #[trigger] lines[k] == "  "@ + names[k] + " "@
                    + native[names[k]] + if installed[k] {
                    " [installed]"@
                } else {
                    " [MISSING — pkg install]"@
                }
        }),
    decreases names.len(),
{
    if names.len() > 0 {
        lemma_native_lines(names.drop_last(), native, installed);
    }
}

/// A report is the number of wheels and their directory, then the packages needed beside them in
/// order, each with its version and whether it is installed, then the packages without a file,
/// then those that could not be converted. A part about no package is left out.
pub proof fn lemma_report(
    run: RunModel,
    outdir: Seq<char>,
    installed: Seq<bool>,
    names: Seq<Seq<char>>,
)
    requires
        forall|i: int, j: int|
            0 <= i < j < names.len() ==> text::lt(#[trigger] names[i], #[trigger] names[j]),
        forall|name: Seq<char>| #[trigger]
            names.contains(name) <==> run.native.contains_key(name),
    ensures
        ({
            let report = materialize::report_of(run, outdir, installed);
            let a: int = if names.len() == 0 {
                2
            } else {
                names.len() as int + 3
            };
            let b: int = if run.missing.len() == 0 {
                a
            } else {
                a + 2
            };
            &&& report.len() == b + run.failed.len()
            &&& report[0].len() == 0
            &&& report[1] == "materialized "@ + text::decimal(run.wheels.len())
                + " wheel(s) into "@ + outdir
            &&& names.len() > 0 ==> report[2]
                == "native pkg deps required at runtime (converted wheels link against /usr/local/lib):"@
            &&& forall|k: int|
                0 <= k < names.len() ==> report[k + 3] == "  "@ + #[trigger] names[k] + " "@
                    + run.native[names[k]] + if installed[k] {
                    " [installed]"@
                } else {
                    " [MISSING — pkg install]"@
                }
            &&& run.missing.len() > 0 ==> report[a] == "no .pkg found for: "@ + text::join(
                run.missing,
                ", "@,
            ) && report[a + 1] == "  (fetch with: doas pkg fetch -y "@ + text::join(
                run.missing,
                " "@,
            ) + ")"@
            &&& forall|k: int|
                0 <= k < run.failed.len() ==> report[b + k] == "conversion failed: "@
                    + #[trigger] run.failed[k]
        }),
{
    assert(text::is_order(names, run.native.dom()));
    text::lemma_in_order_is(names, run.native.dom());
    lemma_native_lines(names, run.native, installed);
    let report = materialize::report_of(run, outdir, installed);
    let lines = materialize::native_lines(names, run.native, installed);
    let head = materialize::head_lines(run, outdir);
    let native = materialize::native_part(run.native, installed);
    let missing = materialize::missing_lines(run.missing);
    let failed = materialize::failed_lines(run.failed);
    assert(report == head + native + missing + failed);
    assert forall|k: int| 0 <= k < names.len() implies report[k + 3] == "  "@
        + #[trigger] names[k] + " "@ + run.native[names[k]] + if installed[k] {
        " [installed]"@
    } else {
        " [MISSING — pkg install]"@
    } by {
        assert(native[k + 1] == lines[k]);
        assert(report[k + 3] == native[k + 1]);
    }
}

} // verus!
