//! Reading a command sequence.
//!
//! An entry is a header, or it belongs to the command whose header came last.
//! Only a gradient has such entries: its transform, its geometry and its
//! colour stops.

use crate::bytes::signed;
use crate::colr::{
    gradient_entries, gradient_number, paint_entries, transform_entries, Command, Paint,
    CMD_DRAW_GRADIENT, CMD_DRAW_SOLID,
};
use vstd::prelude::*;

verus! {

/// How many entries behind a header belong to it: for a gradient, those of its
/// transform and its geometry, which is longer for a radial one, and one for
/// each colour stop.
pub open spec fn payload_len(header: Command) -> int {
    if header.opcode == CMD_DRAW_GRADIENT {
        3 + (if header.y == 1 {
            3int
        } else {
            2
        }) + (if header.z > 0 {
            header.z as int
        } else {
            0
        })
    } else {
        0
    }
}

/// How many entries, from entry `n` on, still belong to a command before them.
pub open spec fn payload_left(commands: Seq<Command>, n: nat) -> int
    decreases n,
{
    if n == 0 {
        0
    } else {
        let left = payload_left(commands, (n - 1) as nat);
        if left > 0 {
            left - 1
        } else {
            payload_len(commands[n - 1])
        }
    }
}

/// Whether entry `i` is a header.
pub open spec fn is_header(commands: Seq<Command>, i: int) -> bool {
    payload_left(commands, i as nat) == 0
}

/// Whether entry `i` is a header that draws an outline.
pub open spec fn is_draw(commands: Seq<Command>, i: int) -> bool {
    is_header(commands, i) && (commands[i].opcode == CMD_DRAW_SOLID || commands[i].opcode
        == CMD_DRAW_GRADIENT)
}

/// How many of the first `n` entries are headers that draw an outline.
pub open spec fn draws_before(commands: Seq<Command>, n: nat) -> nat
    decreases n,
{
    if n == 0 {
        0
    } else {
        draws_before(commands, (n - 1) as nat) + (if is_draw(commands, n - 1) {
            1nat
        } else {
            0
        })
    }
}

/// Whether no command is cut short, and the headers that draw an outline are
/// `count` in number and name the outlines one after the other.
pub open spec fn draws_numbered(commands: Seq<Command>, count: nat) -> bool {
    &&& payload_left(commands, commands.len()) == 0
    &&& draws_before(commands, commands.len()) == count
    &&& forall|i: int|
        0 <= i < commands.len() && #[trigger] is_draw(commands, i) ==> commands[i].x == signed(
            (draws_before(commands, i as nat) % 0x1_0000_0000) as u32,
        )
}

/// How a prefix is read depends on the prefix alone.
pub proof fn lemma_walk_prefix(a: Seq<Command>, b: Seq<Command>, n: nat)
    requires
        n <= a.len(),
        n <= b.len(),
        forall|i: int| 0 <= i < n ==> #[trigger] a[i] == b[i],
    ensures
        payload_left(a, n) == payload_left(b, n),
        draws_before(a, n) == draws_before(b, n),
    decreases n,
{
    if n > 0 {
        lemma_walk_prefix(a, b, (n - 1) as nat);
        assert(a[n - 1] == b[n - 1]);
    }
}

/// The entries that belong to a header are passed over.
pub proof fn lemma_payload_passed(commands: Seq<Command>, n: nat, k: nat)
    requires
        is_header(commands, n as int),
        k <= payload_len(commands[n as int]),
    ensures
        payload_left(commands, n + 1 + k) == payload_len(commands[n as int]) - k,
        draws_before(commands, n + 1 + k) == draws_before(commands, n + 1),
    decreases k,
{
    if k > 0 {
        lemma_payload_passed(commands, n, (k - 1) as nat);
    }
}

/// A header that draws nothing keeps the outlines numbered.
pub proof fn lemma_numbered_push(commands: Seq<Command>, count: nat, header: Command)
    requires
        draws_numbered(commands, count),
        header.opcode != CMD_DRAW_SOLID,
        header.opcode != CMD_DRAW_GRADIENT,
    ensures
        draws_numbered(commands.push(header), count),
{
    lemma_numbered_more(commands, count, commands.push(header));
}

proof fn lemma_numbered_more(commands: Seq<Command>, count: nat, more: Seq<Command>)
    requires
        draws_numbered(commands, count),
        commands.len() <= more.len(),
        forall|i: int| 0 <= i < commands.len() ==> #[trigger] more[i] == commands[i],
    ensures
        payload_left(more, commands.len()) == 0,
        draws_before(more, commands.len()) == count,
        forall|i: int|
            0 <= i < commands.len() && #[trigger] is_draw(more, i) ==> more[i].x == signed(
                (draws_before(more, i as nat) % 0x1_0000_0000) as u32,
            ),
{
    lemma_walk_prefix(more, commands, commands.len());
    assert forall|i: int| 0 <= i < commands.len() && #[trigger] is_draw(more, i) implies more[i].x
        == signed((draws_before(more, i as nat) % 0x1_0000_0000) as u32) by {
        lemma_walk_prefix(more, commands, i as nat);
        assert(is_draw(commands, i));
    }
}

/// Filling the next outline keeps the outlines numbered.
pub proof fn lemma_numbered_fill(commands: Seq<Command>, count: nat, paint: Paint)
    requires
        draws_numbered(commands, count),
        paint matches Paint::Gradient { inverse, gradient, stops } ==> stops.len() <= i32::MAX,
    ensures
        draws_numbered(
            commands + paint_entries((count % 0x1_0000_0000) as u32, paint),
            count + 1,
        ),
{
    let index = (count % 0x1_0000_0000) as u32;
    let entries = paint_entries(index, paint);
    let more = commands + entries;
    let n = commands.len();
    lemma_numbered_more(commands, count, more);
    assert(more[n as int] == entries[0]);
    match paint {
        Paint::Solid(c) => {
            assert(payload_len(entries[0]) == 0);
        },
        Paint::Gradient { inverse, gradient, stops } => {
            assert(transform_entries(inverse).len() == 3);
            assert(gradient_entries(gradient).len() == if gradient_number(gradient) == 1 {
                3int
            } else {
                2
            });
            assert(entries[0].z == stops.len());
        },
    }
    let k = payload_len(entries[0]) as nat;
    assert(entries.len() == 1 + k);
    lemma_payload_passed(more, n, k);
    assert(is_draw(more, n as int));
    assert(draws_before(more, n + 1) == count + 1);
    assert forall|i: int| 0 <= i < more.len() && #[trigger] is_draw(more, i) implies more[i].x
        == signed((draws_before(more, i as nat) % 0x1_0000_0000) as u32) by {
        if i > n {
            lemma_payload_passed(more, n, (i - n - 1) as nat);
        }
    }
}

} // verus!
