//! The pointer map: for each call, where the pointers are that are still
//! needed after it.

use crate::assembly::Instruction;
use crate::emit::{CallSite, PointerLocation};
use crate::flow::{find_label, label_position};
use crate::liveness::Liveness;
use crate::temp::{Label, Temp};
use vstd::prelude::*;

verus! {

/// The node of a call: the instruction right behind the label of the call
/// site.
pub open spec fn call_node(instructions: Seq<Instruction>, label: Label) -> Option<int> {
    match label_position(instructions, label, 0) {
        Some(at) => if at + 1 < instructions.len() {
            Some(at + 1)
        } else {
            None
        },
        None => None,
    }
}

/// Whether the temporary is live after the node and is at home at the
/// location.
pub open spec fn lives_at(
    live: Liveness,
    homes: Seq<PointerLocation>,
    node: int,
    temp: Temp,
    location: PointerLocation,
) -> bool {
    &&& temp.num < live.live_out@.len()
    &&& 0 <= node < live.live_out@[temp.num as int]@.len()
    &&& live.is_live_out(temp, node)
    &&& temp.num < homes.len()
    &&& homes[temp.num as int] == location
}

/// Whether one of the first `count` temporaries that hold pointers is live
/// after the node and at home at the location.
pub open spec fn pointer_lives_at(
    live: Liveness,
    pointers: Seq<Temp>,
    homes: Seq<PointerLocation>,
    node: int,
    count: int,
    location: PointerLocation,
) -> bool {
    exists|k: int|
        0 <= k < count && k < pointers.len() && lives_at(
            live,
            homes,
            node,
            #[trigger] pointers[k],
            location,
        )
}

/// Whether a temporary is live after the node and has a home.
pub open spec fn is_live_pointer(
    live: Liveness,
    homes: Seq<PointerLocation>,
    node: int,
    temp: Temp,
) -> bool {
    &&& temp.num < live.live_out@.len()
    &&& 0 <= node < live.live_out@[temp.num as int]@.len()
    &&& live.is_live_out(temp, node)
    &&& temp.num < homes.len()
}

/// The homes of those of the first `count` temporaries that hold pointers
/// which are live after the node, in the order of the temporaries.
pub open spec fn live_homes(
    live: Liveness,
    pointers: Seq<Temp>,
    homes: Seq<PointerLocation>,
    node: int,
    count: int,
) -> Seq<PointerLocation>
    decreases count,
{
    if count <= 0 || count > pointers.len() {
        Seq::empty()
    } else if is_live_pointer(live, homes, node, pointers[count - 1]) {
        live_homes(live, pointers, homes, node, count - 1).push(
            homes[pointers[count - 1].num as int],
        )
    } else {
        live_homes(live, pointers, homes, node, count - 1)
    }
}

/// Whether the entry lists exactly the homes of the temporaries that hold
/// a pointer and are live after the node.
pub open spec fn lists_live_pointers(
    entry: Seq<PointerLocation>,
    live: Liveness,
    pointers: Seq<Temp>,
    homes: Seq<PointerLocation>,
    node: int,
) -> bool {
    forall|location: PointerLocation| #[trigger]
        entry.contains(location) <==> pointer_lives_at(
            live,
            pointers,
            homes,
            node,
            pointers.len() as int,
            location,
        )
}

/// The entry of a call site lists exactly the homes of the temporaries that
/// hold a pointer and are live after the call: nothing is left out and
/// nothing is listed that is dead.
pub proof fn lemma_live_homes(
    live: Liveness,
    pointers: Seq<Temp>,
    homes: Seq<PointerLocation>,
    node: int,
    count: int,
)
    requires
        0 <= count <= pointers.len(),
    ensures
        forall|location: PointerLocation| #[trigger]
            live_homes(live, pointers, homes, node, count).contains(location)
                <==> pointer_lives_at(live, pointers, homes, node, count, location),
    decreases count,
{
    if count > 0 {
        lemma_live_homes(live, pointers, homes, node, count - 1);
        let before = live_homes(live, pointers, homes, node, count - 1);
        let all = live_homes(live, pointers, homes, node, count);
        let temp = pointers[count - 1];
        assert forall|location: PointerLocation| #[trigger]
            all.contains(location) <==> pointer_lives_at(
                live,
                pointers,
                homes,
                node,
                count,
                location,
            ) by {
            assert(before.contains(location) <==> pointer_lives_at(
                live,
                pointers,
                homes,
                node,
                count - 1,
                location,
            ));
            if all.contains(location) {
                let i = choose|i: int| 0 <= i < all.len() && all[i] == location;
                if i < before.len() {
                    assert(before[i] == location);
                    assert(before.contains(location));
                    let k = choose|k: int|
                        0 <= k < count - 1 && k < pointers.len() && lives_at(
                            live,
                            homes,
                            node,
                            #[trigger] pointers[k],
                            location,
                        );
                    assert(pointer_lives_at(live, pointers, homes, node, count, location));
                } else {
                    assert(lives_at(live, homes, node, pointers[count - 1], location));
                }
            }
            if pointer_lives_at(live, pointers, homes, node, count, location) {
                let k = choose|k: int|
                    0 <= k < count && k < pointers.len() && lives_at(
                        live,
                        homes,
                        node,
                        #[trigger] pointers[k],
                        location,
                    );
                if k < count - 1 {
                    assert(pointer_lives_at(live, pointers, homes, node, count - 1, location));
                    let i = choose|i: int| 0 <= i < before.len() && before[i] == location;
                    assert(all[i] == location);
                } else {
                    assert(all[before.len() as int] == location);
                }
            }
        }
    }
}

/// The homes of the temporaries that hold a pointer and are live after a
/// node, in the order of the list of such temporaries.
pub fn live_pointers(
    live: &Liveness,
    pointers: &Vec<Temp>,
    homes: &Vec<PointerLocation>,
    node: usize,
) -> (entry: Vec<PointerLocation>)
    ensures
        entry@ == live_homes(*live, pointers@, homes@, node as int, pointers@.len() as int),
        lists_live_pointers(entry@, *live, pointers@, homes@, node as int),
{
    let mut entry: Vec<PointerLocation> = Vec::new();
    let mut index: usize = 0;
    while index < pointers.len()
        invariant
            index <= pointers.len(),
            entry@ == live_homes(*live, pointers@, homes@, node as int, index as int),
        decreases pointers.len() - index,
    {
        let temp = pointers[index];
        if temp.num < live.live_out.len() && temp.num < homes.len() {
            let row = &live.live_out[temp.num];
            if node < row.len() && row[node] {
                entry.push(homes[temp.num]);
            }
        }
        index += 1;
    }
    proof {
        lemma_live_homes(*live, pointers@, homes@, node as int, pointers@.len() as int);
    }
    entry
}

/// The words of the frame as homes of pointers.
pub open spec fn frame_homes(words: Seq<i64>) -> Seq<PointerLocation> {
    Seq::new(words.len(), |i: int| PointerLocation::Frame(words[i]))
}

/// Whether the entry is the one of the call site: it carries the label,
/// and lists exactly the homes of the temporaries that hold a pointer and
/// are live after the call, and behind them the words of the frame in
/// which variables that escape hold pointers. A label that no call
/// follows has an empty entry.
pub open spec fn is_site_entry(
    site: CallSite,
    instructions: Seq<Instruction>,
    live: Liveness,
    label: Label,
    pointers: Seq<Temp>,
    homes: Seq<PointerLocation>,
    words: Seq<i64>,
) -> bool {
    &&& site.label == label
    &&& match call_node(instructions, label) {
        Some(node) => site.pointers@ == live_homes(
            live,
            pointers,
            homes,
            node,
            pointers.len() as int,
        ) + frame_homes(words) && lists_live_pointers(
            live_homes(live, pointers, homes, node, pointers.len() as int),
            live,
            pointers,
            homes,
            node,
        ),
        None => site.pointers@.len() == 0,
    }
}

/// Adds the words of the frame to the homes of an entry.
fn with_words(entry: Vec<PointerLocation>, words: &Vec<i64>) -> (result: Vec<PointerLocation>)
    ensures
        result@ == entry@ + frame_homes(words@),
{
    let mut result = entry;
    let mut index: usize = 0;
    assert(result@ =~= entry@ + frame_homes(words@).take(0));
    while index < words.len()
        invariant
            index <= words@.len(),
            result@ == entry@ + frame_homes(words@).take(index as int),
        decreases words.len() - index,
    {
        result.push(PointerLocation::Frame(words[index]));
        assert(result@ =~= entry@ + frame_homes(words@).take(index + 1));
        index += 1;
    }
    assert(frame_homes(words@).take(words@.len() as int) =~= frame_homes(words@));
    result
}

/// Builds the pointer map of a function: one entry for each call site, in
/// the order of the call sites.
pub fn pointer_map(
    instructions: &Vec<Instruction>,
    live: &Liveness,
    call_sites: &Vec<Label>,
    pointers: &Vec<Temp>,
    homes: &Vec<PointerLocation>,
    words: &Vec<i64>,
) -> (map: Vec<CallSite>)
    ensures
        map@.len() == call_sites@.len(),
        forall|i: int|
            0 <= i < call_sites@.len() ==> is_site_entry(
                #[trigger] map@[i],
                instructions@,
                *live,
                call_sites@[i],
                pointers@,
                homes@,
                words@,
            ),
{
    let mut map: Vec<CallSite> = Vec::new();
    let mut index: usize = 0;
    while index < call_sites.len()
        invariant
            index <= call_sites.len(),
            map@.len() == index,
            forall|i: int|
                0 <= i < index ==> is_site_entry(
                    #[trigger] map@[i],
                    instructions@,
                    *live,
                    call_sites@[i],
                    pointers@,
                    homes@,
                    words@,
                ),
        decreases call_sites.len() - index,
    {
        let label = call_sites[index];
        let entry = match find_label(instructions, label) {
            Some(at) => {
                if instructions.len() - at > 1 {
                    with_words(live_pointers(live, pointers, homes, at + 1), words)
                } else {
                    Vec::new()
                }
            },
            None => Vec::new(),
        };
        map.push(CallSite { label, pointers: entry });
        index += 1;
    }
    map
}

} // verus!
