//! What holds of runs over packages and their dependencies.
use crate::materialize;
use crate::package;
use crate::text;
use vstd::prelude::*;

verus! {

/// The name was taken up, or waits to be.
pub open spec fn is_known(run: materialize::RunModel, name: Seq<char>) -> bool {
    run.queue.contains(name) || run.visited.contains(name)
}

/// A run after some events.
pub open spec fn after(run: materialize::RunModel, events: Seq<materialize::EventModel>)
    -> materialize::RunModel
    decreases events.len(),
{
    if events.len() == 0 {
        run
    } else {
        materialize::handled(after(run, events.drop_last()), events.last())
    }
}

/// Taking up a name loses none, and adds none.
proof fn lemma_taken_up_known(run: materialize::RunModel, name: Seq<char>)
    ensures
        is_known(materialize::taken_up(run), name) <==> is_known(run, name),
        materialize::taken_up(run).prefix == run.prefix,
        materialize::taken_up(run).native == run.native,
    decreases run.queue.len(),
{
    if run.queue.len() > 0 {
        let first = run.queue[0];
        let rest = run.queue.skip(1);
        assert(run.queue =~= seq![first] + rest);
        assert(run.queue.contains(name) <==> name == first || rest.contains(name)) by {
            if run.queue.contains(name) {
                let k = choose|k: int| 0 <= k < run.queue.len() && run.queue[k] == name;
                if k > 0 {
                    assert(rest[k - 1] == name);
                }
            }
            if rest.contains(name) {
                let k = choose|k: int| 0 <= k < rest.len() && rest[k] == name;
                assert(run.queue[k + 1] == name);
            }
            assert(run.queue.contains(run.queue[0]));
        }
        if run.visited.contains(first) {
            lemma_taken_up_known(
                materialize::RunModel { queue: rest, ..run },
                name,
            );
        } else {
            text::lemma_push_contains(run.visited, first, name);
        }
    }
}

/// The python packages among some names are those of the names that are python packages.
pub proof fn lemma_python_deps(names: Seq<Seq<char>>, prefix: Seq<char>, name: Seq<char>)
    ensures
        materialize::python_deps(names, prefix).contains(name) <==> names.contains(name)
            && materialize::is_python_dep(name, prefix),
    decreases names.len(),
{
    if names.len() > 0 {
        let head = names.drop_last();
        lemma_python_deps(head, prefix, name);
        assert(names =~= head.push(names.last()));
        text::lemma_push_contains(head, names.last(), name);
        text::lemma_push_contains(
            materialize::python_deps(head, prefix),
            names.last(),
            name,
        );
    }
}

/// What two sequences one after the other hold.
proof fn lemma_concat_contains(a: Seq<Seq<char>>, b: Seq<Seq<char>>, name: Seq<char>)
    ensures
        (a + b).contains(name) <==> a.contains(name) || b.contains(name),
{
    if a.contains(name) {
        let k = choose|k: int| 0 <= k < a.len() && a[k] == name;
        assert((a + b)[k] == name);
    }
    if b.contains(name) {
        let k = choose|k: int| 0 <= k < b.len() && b[k] == name;
        assert((a + b)[a.len() + k] == name);
    }
}

/// The event is the conversion of a package that depends on the python package.
pub open spec fn brings(
    run: materialize::RunModel,
    event: materialize::EventModel,
    name: Seq<char>,
) -> bool {
    &&& run.action is Convert
    &&& event matches materialize::EventModel::Converted(_, info) && info.deps.contains_key(name)
    &&& materialize::is_python_dep(name, run.prefix)
}

/// The dependencies that an event brings are finitely many.
pub open spec fn is_finite(event: materialize::EventModel) -> bool {
    match event {
        materialize::EventModel::Converted(_, info) => info.deps.dom().finite(),
        _ => true,
    }
}

/// An event loses no name, and adds those python packages that a converted package depends on.
pub proof fn lemma_handled_known(
    run: materialize::RunModel,
    event: materialize::EventModel,
    name: Seq<char>,
)
    requires
        is_finite(event),
    ensures
        is_known(materialize::handled(run, event), name) <==> is_known(run, name) || brings(
            run,
            event,
            name,
        ),
        materialize::handled(run, event).prefix == run.prefix,
{
    match (run.action, event) {
        (
            materialize::ActionModel::Locate(subject),
            materialize::EventModel::NotFound,
        ) => {
            lemma_taken_up_known(
                materialize::RunModel { missing: run.missing.push(subject), ..run },
                name,
            );
        },
        (
            materialize::ActionModel::LocateAgain(subject),
            materialize::EventModel::NotFound,
        ) => {
            lemma_taken_up_known(
                materialize::RunModel { missing: run.missing.push(subject), ..run },
                name,
            );
        },
        (
            materialize::ActionModel::Convert(_),
            materialize::EventModel::Converted(wheel, info),
        ) => {
            let order = text::in_order(info.deps.dom());
            let more = materialize::python_deps(order, run.prefix);
            text::lemma_in_order(info.deps.dom());
            lemma_python_deps(order, run.prefix, name);
            lemma_concat_contains(run.queue, more, name);
            lemma_taken_up_known(materialize::with_wheel(run, wheel, info.deps), name);
        },
        (
            materialize::ActionModel::Convert(subject),
            materialize::EventModel::Failed(reason),
        ) => {
            lemma_taken_up_known(
                materialize::RunModel {
                    failed: run.failed.push(subject + ": "@ + reason),
                    ..run
                },
                name,
            );
        },
        _ => {},
    }
}

/// The name was asked for, or is that of a python package that a converted package depends on.
pub open spec fn is_due(
    names: Seq<Seq<char>>,
    prefix: Seq<char>,
    no_fetch: bool,
    events: Seq<materialize::EventModel>,
    name: Seq<char>,
) -> bool {
    names.contains(name) || exists|i: int|
        0 <= i < events.len() && brings(
            after(materialize::begun(names, prefix, no_fetch), #[trigger] events.take(i)),
            events[i],
            name,
        )
}

/// A run knows exactly the names that are due.
pub proof fn lemma_known_are_due(
    names: Seq<Seq<char>>,
    prefix: Seq<char>,
    no_fetch: bool,
    events: Seq<materialize::EventModel>,
    name: Seq<char>,
)
    requires
        forall|i: int| 0 <= i < events.len() ==> is_finite(#[trigger] events[i]),
    ensures
        is_known(after(materialize::begun(names, prefix, no_fetch), events), name) <==> is_due(
            names,
            prefix,
            no_fetch,
            events,
            name,
        ),
    decreases events.len(),
{
    let start = materialize::begun(names, prefix, no_fetch);
    if events.len() == 0 {
        lemma_taken_up_known(
            materialize::RunModel {
                prefix,
                no_fetch,
                queue: names,
                visited: seq![],
                wheels: seq![],
                native: Map::empty(),
                missing: seq![],
                failed: seq![],
                action: materialize::ActionModel::Finish,
            },
            name,
        );
    } else {
        let head = events.drop_last();
        let n = head.len() as int;
        assert forall|i: int| 0 <= i < head.len() implies is_finite(#[trigger] head[i]) by {
            assert(head[i] == events[i]);
        }
        lemma_known_are_due(names, prefix, no_fetch, head, name);
        assert(events.last() == events[n]);
        lemma_handled_known(after(start, head), events.last(), name);
        assert(events.take(n) =~= head);
        if is_due(names, prefix, no_fetch, head, name) && !names.contains(name) {
            let i = choose|i: int|
                0 <= i < head.len() && brings(
                    after(start, #[trigger] head.take(i)),
                    head[i],
                    name,
                );
            assert(events.take(i) =~= head.take(i));
            assert(events[i] == head[i]);
        }
        if is_due(names, prefix, no_fetch, events, name) && !names.contains(name) {
            let i = choose|i: int|
                0 <= i < events.len() && brings(
                    after(start, #[trigger] events.take(i)),
                    events[i],
                    name,
                );
            if i < n {
                assert(events.take(i) =~= head.take(i));
                assert(events[i] == head[i]);
            }
        }
    }
}

/// A run stays in good order whatever comes.
pub proof fn lemma_after_in_good_order(
    names: Seq<Seq<char>>,
    prefix: Seq<char>,
    no_fetch: bool,
    events: Seq<materialize::EventModel>,
)
    ensures
        materialize::in_good_order(after(materialize::begun(names, prefix, no_fetch), events)),
    decreases events.len(),
{
    if events.len() == 0 {
        materialize::lemma_begun_in_good_order(names, prefix, no_fetch);
    } else {
        let start = materialize::begun(names, prefix, no_fetch);
        lemma_after_in_good_order(names, prefix, no_fetch, events.drop_last());
        materialize::lemma_handled_in_good_order(
            after(start, events.drop_last()),
            events.last(),
        );
    }
}

/// A run that ends has taken up exactly what was asked for and the python packages that
/// converted packages depend on, and each became a wheel, is missing, or failed.
pub proof fn lemma_finished(
    names: Seq<Seq<char>>,
    prefix: Seq<char>,
    no_fetch: bool,
    events: Seq<materialize::EventModel>,
)
    requires
        forall|i: int| 0 <= i < events.len() ==> is_finite(#[trigger] events[i]),
        after(materialize::begun(names, prefix, no_fetch), events).action is Finish,
    ensures
        ({
            let run = after(materialize::begun(names, prefix, no_fetch), events);
            &&& forall|name: Seq<char>| #[trigger]
                run.visited.contains(name) <==> is_due(names, prefix, no_fetch, events, name)
            &&& text::all_different(run.visited)
            &&& run.wheels.len() + run.missing.len() + run.failed.len() == run.visited.len()
        }),
{
    let run = after(materialize::begun(names, prefix, no_fetch), events);
    lemma_after_in_good_order(names, prefix, no_fetch, events);
    assert forall|name: Seq<char>| #[trigger]
        run.visited.contains(name) <==> is_due(names, prefix, no_fetch, events, name) by {
        lemma_known_are_due(names, prefix, no_fetch, events, name);
    }
}

/// A dependency that is neither a python package nor python itself is noted as needed, and a
/// version that was noted first stays.
pub proof fn lemma_native_noted(
    run: materialize::RunModel,
    wheel: Seq<char>,
    info: package::InfoModel,
    name: Seq<char>,
)
    requires
        run.action is Convert,
    ensures
        ({
            let next = materialize::handled(
                run,
                materialize::EventModel::Converted(wheel, info),
            );
            &&& next.native.contains_key(name) <==> run.native.contains_key(name) || (
            info.deps.contains_key(name) && materialize::is_native_dep(name, run.prefix))
            &&& run.native.contains_key(name) ==> next.native[name] == run.native[name]
            &&& !run.native.contains_key(name) && next.native.contains_key(name)
                ==> next.native[name] == info.deps[name]
        }),
{
    lemma_taken_up_known(materialize::with_wheel(run, wheel, info.deps), name);
}

} // verus!
