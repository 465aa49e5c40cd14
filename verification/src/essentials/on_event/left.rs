//! The `left` handler: forgets the rooms the bot has left.
use vstd::prelude::*;
use vstd::string::*;
use crate::{EventArgs, Instructions, InstructionView};
use crate::instruction_generators::{RoomTypeData, RoomTypeDataView};

verus! {

/// The help text of `left`.
pub const HELP_TEXT: &'static str = "Runs on all syncs that have left rooms states";

/// One `DelRoom` for each room left, in order.
pub open spec fn left_instrs(rooms: Seq<(Seq<char>, ())>) -> Seq<InstructionView> {
    rooms.map_values(|r: (Seq<char>, ())| InstructionView::DelRoom(r.0))
}

/// What `left` answers to room updates of any kind.
pub open spec fn left_outcome(data: RoomTypeDataView) -> Seq<InstructionView> {
    match data {
        RoomTypeDataView::Left(rooms) => left_instrs(rooms),
        _ => seq![],
    }
}

/// Asks to forget each room that the bot has left.
pub fn main(event_args: &EventArgs) -> (r: Vec<Instructions>)
    requires
        crate::instruction_generators::handlers_ready(event_args.deep_view()),
    ensures
        r.deep_view() == left_outcome(event_args.room_data.deep_view()),
{
    let mut instructions: Vec<Instructions> = Vec::new();
    if let RoomTypeData::Left(x) = &event_args.room_data {
        let ghost rooms = x.deep_view();
        let mut i: usize = 0;
        while i < x.len()
            invariant
                i <= x.len(),
                rooms == x.deep_view(),
                instructions.deep_view() == left_instrs(rooms.take(i as int)),
            decreases x.len() - i,
        {
            let ghost before = instructions.deep_view();
            instructions.push(Instructions::DelRoom(x[i].0.clone()));
            proof {
                assert(instructions.deep_view() =~= before.push(InstructionView::DelRoom(rooms[i as int].0)));
                assert(rooms.take(i + 1) == rooms.take(i as int).push(rooms[i as int]));
                assert(left_instrs(rooms.take(i + 1)) =~= left_instrs(rooms.take(i as int)).push(
                    InstructionView::DelRoom(rooms[i as int].0),
                ));
            }
            i = i + 1;
        }
        assert(rooms.take(x.len() as int) == rooms);
    }
    instructions
}

/// The help text of `left`.
pub fn help() -> (r: String)
    ensures
        r@ == HELP_TEXT@,
{
    String::from_str(HELP_TEXT)
}

} // verus!
