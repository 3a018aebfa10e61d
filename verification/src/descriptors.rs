//! What a child's setup does to its descriptors, on a model of the descriptor table.
//!
//! A process holds a table from descriptors to open files. A child starts with a copy
//! of the shell's table. Duplicating makes one descriptor refer to the open file of
//! another, and closing empties a descriptor. A reader of a pipe sees the end of the
//! stream only when no process holds the pipe's write end any more, so a child has to
//! close every end of every pipe that it does not use as a standard stream.

use vstd::prelude::*;
use crate::host::{standard_input, standard_output, ChildOp};
use crate::launch::LaunchView;

verus! {

/// The table after one step: duplicating `from` onto `onto` makes `onto` refer to the
/// open file of `from`, where `from` is open, and closing `fd` leaves `fd` empty.
pub open spec fn after_op(table: Map<i32, int>, op: ChildOp) -> Map<i32, int> {
    match op {
        ChildOp::Duplicate { from, onto } => if table.contains_key(from) {
            table.insert(onto, table[from])
        } else {
            table
        },
        ChildOp::Close { fd } => table.remove(fd),
    }
}

/// The table after the steps, taken in order.
pub open spec fn after_ops(table: Map<i32, int>, ops: Seq<ChildOp>) -> Map<i32, int>
    decreases ops.len(),
{
    if ops.len() == 0 {
        table
    } else {
        after_op(after_ops(table, ops.drop_last()), ops.last())
    }
}

/// The steps that close each of the descriptors once.
pub open spec fn closing(fds: Seq<i32>) -> Seq<ChildOp> {
    Seq::new(fds.len(), |k: int| ChildOp::Close { fd: fds[k] })
}

/// Taking some steps and then some more is taking them all.
pub proof fn lemma_after_ops_in_two(table: Map<i32, int>, first: Seq<ChildOp>, then: Seq<ChildOp>)
    ensures
        after_ops(table, first + then) == after_ops(after_ops(table, first), then),
    decreases then.len(),
{
    if then.len() == 0 {
        assert(first + then =~= first);
    } else {
        lemma_after_ops_in_two(table, first, then.drop_last());
        assert((first + then).drop_last() =~= first + then.drop_last());
    }
}

/// Closing descriptors empties them and touches no other: after the closing, `fd` is
/// open where it was open before and is not one of those closed, and it then refers to
/// the open file that it referred to before.
pub proof fn lemma_after_closing(table: Map<i32, int>, fds: Seq<i32>, fd: i32)
    ensures
        after_ops(table, closing(fds)).contains_key(fd) <==> table.contains_key(fd)
            && !fds.contains(fd),
        after_ops(table, closing(fds)).contains_key(fd) ==> after_ops(table, closing(fds))[fd]
            == table[fd],
    decreases fds.len(),
{
    if fds.len() > 0 {
        let init = fds.drop_last();
        lemma_after_closing(table, init, fd);
        assert(closing(fds).drop_last() =~= closing(init));
        assert(closing(fds).last() == ChildOp::Close { fd: fds.last() });
        let before = after_ops(table, closing(init));
        let after = after_ops(table, closing(fds));
        assert(after == before.remove(fds.last()));
        if fd == fds.last() {
            assert(fds[fds.len() - 1] == fd);
        } else if init.contains(fd) {
            let k = choose|k: int| 0 <= k < init.len() && init[k] == fd;
            assert(fds[k] == fd);
        } else if fds.contains(fd) {
            let k = choose|k: int| 0 <= k < fds.len() && fds[k] == fd;
            assert(init[k] == fd);
        }
    } else {
        assert(closing(fds).len() == 0);
        assert(after_ops(table, closing(fds)) == table);
    }
}

/// The standard streams of a child, and nothing else of the launch.
///
/// Take a stage of a launch whose pipes are all made, and a child that starts with a
/// table in which the descriptors of the launch are open and none of them is the
/// descriptor of standard input or output. After the child's setup, its standard input
/// is the stage's source, where it has one, and its standard output the stage's sink,
/// where it has one; a standard stream without a source or sink is as the child got
/// it; every descriptor of the launch is closed, so that the child holds no end of any
/// pipe except as a standard stream; and every other descriptor is as the child got it.
pub proof fn lemma_setup_wires_and_closes(launch: LaunchView, stage: int, table: Map<i32, int>)
    requires
        launch.wf(),
        launch.staging(),
        0 <= stage < launch.stages.len(),
        forall|k: int|
            0 <= k < launch.descriptors().len() ==> table.contains_key(
                #[trigger] launch.descriptors()[k],
            ),
        !launch.descriptors().contains(standard_input()),
        !launch.descriptors().contains(standard_output()),
    ensures
        ({
            let after = after_ops(table, launch.setup(stage));
            &&& match launch.source(stage) {
                Some(fd) => after.contains_key(standard_input()) && after[standard_input()]
                    == table[fd],
                None => after.contains_key(standard_input()) == table.contains_key(
                    standard_input(),
                ) && (table.contains_key(standard_input()) ==> after[standard_input()]
                    == table[standard_input()]),
            }
            &&& match launch.sink(stage) {
                Some(fd) => after.contains_key(standard_output()) && after[standard_output()]
                    == table[fd],
                None => after.contains_key(standard_output()) == table.contains_key(
                    standard_output(),
                ) && (table.contains_key(standard_output()) ==> after[standard_output()]
                    == table[standard_output()]),
            }
            &&& forall|k: int|
                0 <= k < launch.descriptors().len() ==> !after.contains_key(
                    #[trigger] launch.descriptors()[k],
                )
            &&& forall|fd: i32|
                fd != standard_input() && fd != standard_output() && !launch.descriptors().contains(
                    fd,
                ) ==> after.contains_key(fd) == table.contains_key(fd) && (table.contains_key(fd)
                    ==> after[fd] == table[fd])
        }),
{
    let fds = launch.descriptors();
    let wiring = launch.wiring(stage);
    let wired = after_ops(table, wiring);
    assert(launch.setup(stage) =~= wiring + closing(fds));
    lemma_after_ops_in_two(table, wiring, closing(fds));
    lemma_source_and_sink_are_descriptors(launch, stage);
    let first = match launch.source(stage) {
        Some(fd) => seq![ChildOp::Duplicate { from: fd, onto: standard_input() }],
        None => Seq::empty(),
    };
    let second = match launch.sink(stage) {
        Some(fd) => seq![ChildOp::Duplicate { from: fd, onto: standard_output() }],
        None => Seq::empty(),
    };
    assert(wiring == first + second);
    lemma_after_ops_in_two(table, first, second);
    let middle = after_ops(table, first);
    assert(first.len() > 0 ==> first.drop_last() =~= Seq::<ChildOp>::empty());
    assert(second.len() > 0 ==> second.drop_last() =~= Seq::<ChildOp>::empty());
    assert(after_ops(table, Seq::<ChildOp>::empty()) == table);
    assert(after_ops(middle, Seq::<ChildOp>::empty()) == middle);
    match launch.source(stage) {
        Some(fd) => {
            let k = choose|k: int| 0 <= k < fds.len() && fds[k] == fd;
            assert(table.contains_key(fds[k]));
            assert(first.last() == ChildOp::Duplicate { from: fd, onto: standard_input() });
            assert(middle == table.insert(standard_input(), table[fd]));
        },
        None => {
            assert(middle == table);
        },
    }
    match launch.sink(stage) {
        Some(fd) => {
            let k = choose|k: int| 0 <= k < fds.len() && fds[k] == fd;
            assert(table.contains_key(fds[k]));
            assert(fd != standard_input());
            assert(middle.contains_key(fd) && middle[fd] == table[fd]);
            assert(second.last() == ChildOp::Duplicate { from: fd, onto: standard_output() });
            assert(wired == middle.insert(standard_output(), table[fd]));
        },
        None => {
            assert(wired == middle);
        },
    }
    let after = after_ops(table, launch.setup(stage));
    assert(after == after_ops(wired, closing(fds)));
    lemma_after_closing(wired, fds, standard_input());
    lemma_after_closing(wired, fds, standard_output());
    assert forall|k: int| 0 <= k < fds.len() implies !after.contains_key(#[trigger] fds[k]) by {
        assert(fds.contains(fds[k]));
        lemma_after_closing(wired, fds, fds[k]);
    }
    assert forall|fd: i32|
        fd != standard_input() && fd != standard_output() && !fds.contains(
            fd,
        ) implies after.contains_key(fd) == table.contains_key(fd) && (table.contains_key(fd)
        ==> after[fd] == table[fd]) by {
        lemma_after_closing(wired, fds, fd);
    }
}

/// The source and the sink of a stage are descriptors of the launch.
pub proof fn lemma_source_and_sink_are_descriptors(launch: LaunchView, stage: int)
    requires
        launch.wf(),
        launch.staging(),
        0 <= stage < launch.stages.len(),
    ensures
        launch.source(stage) matches Some(fd) ==> launch.descriptors().contains(fd),
        launch.sink(stage) matches Some(fd) ==> launch.descriptors().contains(fd),
{
    let fds = launch.descriptors();
    let ends = crate::launch::pipe_ends(launch.pipes);
    let files = crate::launch::maybe(launch.input_fd) + crate::launch::maybe(launch.output_fd);
    assert(fds =~= ends + files);
    if stage == 0 {
        match launch.input_fd {
            Some(fd) => {
                assert(fds[ends.len() as int] == fd);
            },
            None => {},
        }
    } else {
        assert(ends[2 * (stage - 1)] == launch.pipes[stage - 1].0) by {
            assert((2 * (stage - 1)) / 2 == stage - 1);
            assert((2 * (stage - 1)) % 2 == 0);
        }
        assert(fds[2 * (stage - 1)] == launch.pipes[stage - 1].0);
    }
    if stage == launch.stages.len() - 1 {
        match launch.output_fd {
            Some(fd) => {
                assert(fds[fds.len() - 1] == fd);
            },
            None => {},
        }
    } else {
        assert(ends[2 * stage + 1] == launch.pipes[stage].1) by {
            assert((2 * stage + 1) / 2 == stage);
            assert((2 * stage + 1) % 2 == 1);
        }
        assert(fds[2 * stage + 1] == launch.pipes[stage].1);
    }
}

/// The shell keeps no descriptor of a launch.
///
/// Once the shell has closed the descriptors of a launch, none of them is open in its
/// table, and every other descriptor is as it was.
pub proof fn lemma_shell_keeps_nothing(fds: Seq<i32>, table: Map<i32, int>)
    ensures
        forall|k: int|
            0 <= k < fds.len() ==> !after_ops(table, closing(fds)).contains_key(#[trigger] fds[k]),
        forall|fd: i32|
            !fds.contains(fd) ==> after_ops(table, closing(fds)).contains_key(fd)
                == table.contains_key(fd) && (table.contains_key(fd) ==> after_ops(
                table,
                closing(fds),
            )[fd] == table[fd]),
{
    assert forall|k: int| 0 <= k < fds.len() implies !after_ops(table, closing(fds)).contains_key(
        #[trigger] fds[k],
    ) by {
        assert(fds.contains(fds[k]));
        lemma_after_closing(table, fds, fds[k]);
    }
    assert forall|fd: i32| !fds.contains(fd) implies after_ops(table, closing(fds)).contains_key(
        fd,
    ) == table.contains_key(fd) && (table.contains_key(fd) ==> after_ops(table, closing(fds))[fd]
        == table[fd]) by {
        lemma_after_closing(table, fds, fd);
    }
}

} // verus!
