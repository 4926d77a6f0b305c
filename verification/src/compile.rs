//! From fragments to a listing: each function goes through the view
//! shift, canonical form, trace scheduling, instruction selection and
//! register allocation, and the results are written out with the data.

use crate::allocate::{allocate, fails, succeeds, AllocError, Allocation};
use crate::apply::{no_redundant_moves, registers_only};
use crate::assembly::{copy_instructions, instruction_views, Instruction, InstructionView};
use crate::blocks::{basic_blocks, blocks_of};
use crate::canon::{linear, linearize};
use crate::emit::{
    all_data_known,
    are_sites_known,
    is_all_data_known,
    listing_text,
    maps_known,
    push_data_section,
    push_end_line,
    push_header,
    push_sites,
    push_subroutine,
    sites_known,
    sites_renderer,
    subroutine_renderer,
    CallSite,
    Data,
    StringLayout,
    Subroutine,
    END_MARKER,
    POINTER_MAP_NAME,
};
use crate::frame::{epilog_text, frame_size, prolog_text, sink, view_shifted, Frame};
use crate::gen::{emitted, munched_from, Gen, GenError, GenState};
use crate::ir::Stm;
use crate::symbol::Strings;
use crate::temp::{is_label_known, label_known, Label, Temp, TempSource};
use crate::text::{concat_map, lemma_concat_map_step};
use crate::trace::{scheduled, trace_schedule};
use crate::vectors::reversed;
use vstd::prelude::*;

verus! {

/// The body of a function as it comes from translation, with its frame and
/// the temporaries that hold pointers.
#[derive(Debug, PartialEq, Eq)]
pub struct FunctionFragment {
    pub body: Stm,
    pub frame: Frame,
    /// The temporaries that hold pointers.
    pub temp_map: Vec<Temp>,
    /// The offsets of the words of the frame in which variables that
    /// escape hold pointers.
    pub escaping_vars: Vec<i64>,
}

/// What translation hands to the back end.
#[derive(Debug, PartialEq, Eq)]
pub enum Fragment {
    Function(FunctionFragment),
    Str(Label, String),
    VTable { class: Label, methods: Vec<Label> },
}

/// Why a function could not be compiled.
#[derive(Clone, Copy, Debug, PartialEq, Eq, Structural)]
pub enum CompileError {
    /// A label of a piece of data, or of a call site, has a name that is
    /// not in the table.
    UnknownData,
    /// The label of the function has a name that is not in the table.
    UnknownLabel(Label),
    /// The temporaries ran out.
    OutOfTemps,
    /// The labels ran out.
    OutOfLabels,
    /// Instruction selection gave up.
    Select(GenError),
    /// Register allocation gave up.
    Allocate(AllocError),
}

/// What instruction selection gives for a function, with the sink at the
/// end, or the error of the first step that fails: the name of the
/// function must be known; then the view shift goes around the body, the
/// result is made canonical, cut into basic blocks and put in trace order,
/// and the instructions are selected.
#[verifier::opaque]
pub open spec fn selected_of(
    fragment: FunctionFragment,
    next_temp: nat,
    next_label: nat,
    names: Seq<Seq<char>>,
) -> Result<GenState, CompileError> {
    if !label_known(fragment.frame.name, names) {
        Err(CompileError::UnknownLabel(fragment.frame.name))
    } else if next_temp + 5 > usize::MAX {
        Err(CompileError::OutOfTemps)
    } else {
        let shifted = view_shifted(fragment.body, fragment.frame.formals@, next_temp);
        let (stms, temps) = linear(shifted, next_temp + 5);
        if temps > usize::MAX {
            Err(CompileError::OutOfTemps)
        } else {
            let (blocks, done, labels) = blocks_of(stms, next_label);
            if labels > usize::MAX {
                Err(CompileError::OutOfLabels)
            } else {
                let (ordered, labels) = scheduled(blocks, done, labels);
                if labels > usize::MAX {
                    Err(CompileError::OutOfLabels)
                } else {
                    match munched_from(
                        GenState {
                            instructions: Seq::empty(),
                            call_sites: Seq::empty(),
                            next_temp: temps,
                            next_label: labels,
                        },
                        ordered,
                        0,
                        names,
                    ) {
                        Ok(state) => Ok(emitted(state, sink())),
                        Err(error) => Err(CompileError::Select(error)),
                    }
                }
            }
        }
    }
}

/// A compiled function.
#[derive(Debug)]
pub struct Compiled {
    /// The numbers of the next temporary and label before the function was
    /// compiled.
    pub start_temp: usize,
    pub start_label: usize,
    /// The same numbers afterwards.
    pub end_temp: usize,
    pub end_label: usize,
    /// The instructions over temporaries that were selected, with the sink.
    pub selected: Vec<Instruction>,
    /// The labels of the call sites among them.
    pub call_sites: Vec<Label>,
    /// The number of the next temporary after selection.
    pub selected_temps: usize,
    /// The registers of the temporaries, and the pointer map.
    pub allocation: Allocation,
    /// The frame with the words of the spilled temporaries.
    pub frame: Frame,
    /// The instructions over registers between prologue and epilogue.
    pub subroutine: Subroutine,
}

impl Compiled {
    /// Whether this is what compiling the fragment gives.
    #[verifier::opaque]
    pub open spec fn compiles(&self, fragment: FunctionFragment, names: Seq<Seq<char>>) -> bool {
        &&& selected_of(fragment, self.start_temp as nat, self.start_label as nat, names) matches Ok(
            state,
        )
        &&& instruction_views(self.selected@) == state.instructions
        &&& self.call_sites@ == state.call_sites
        &&& self.selected_temps == state.next_temp
        &&& self.end_label == state.next_label
        &&& self.allocation.allocates(
            self.selected@,
            self.selected_temps as nat,
            self.end_temp as nat,
            self.call_sites@,
            fragment.temp_map@,
            fragment.escaping_vars@,
        )
        &&& succeeds(
            instruction_views(self.selected@),
            self.selected_temps as nat,
            fragment.frame.slots as nat,
            self.allocation,
        )
        &&& self.frame.wf()
        &&& self.frame.name == fragment.frame.name
        &&& self.frame.formals == fragment.frame.formals
        &&& self.frame.slots == fragment.frame.slots + self.allocation.spills@.len()
        &&& self.subroutine.prolog@ == prolog_text(
            self.frame.name,
            frame_size(self.frame.slots as nat),
            names,
        )
        &&& instruction_views(self.subroutine.body@) == instruction_views(
            self.allocation.instructions@,
        )
        &&& self.subroutine.epilog@ == epilog_text()
    }
}

/// The code of a compiled function touches registers only, and holds no
/// move from a register to itself.
pub proof fn lemma_compiled_over_registers(
    compiled: Compiled,
    fragment: FunctionFragment,
    names: Seq<Seq<char>>,
)
    requires
        compiled.compiles(fragment, names),
    ensures
        registers_only(instruction_views(compiled.subroutine.body@)),
        no_redundant_moves(instruction_views(compiled.subroutine.body@)),
{
    reveal(Compiled::compiles);
}

/// When compiling a function fails, and why: with the error of the first
/// step of selection that fails; or, after selection, because allocation
/// gives up on the selected instructions.
pub open spec fn function_fails(
    fragment: FunctionFragment,
    next_temp: nat,
    next_label: nat,
    names: Seq<Seq<char>>,
    error: CompileError,
) -> bool {
    match selected_of(fragment, next_temp, next_label, names) {
        Err(found) => error == found,
        Ok(state) => error matches CompileError::Allocate(cause) && fails(
            state.instructions,
            state.next_temp,
            fragment.frame.slots as nat,
            cause,
        ),
    }
}

/// Compiles one function: view shift, canonical form, basic blocks, trace
/// order, instruction selection, register allocation, prologue and
/// epilogue.
pub fn compile_function(fragment: FunctionFragment, source: &mut TempSource, names: &Strings) -> (result:
    Result<Compiled, CompileError>)
    requires
        fragment.frame.wf(),
    ensures
        selected_of(fragment, old(source).next_temp(), old(source).next_label(), names@) is Err
            ==> result is Err,
        result matches Err(error) ==> function_fails(
            fragment,
            old(source).next_temp(),
            old(source).next_label(),
            names@,
            error,
        ),
        result matches Ok(compiled) ==> {
            &&& compiled.compiles(fragment, names@)
            &&& compiled.start_temp == old(source).next_temp()
            &&& compiled.start_label == old(source).next_label()
            &&& compiled.end_temp == final(source).next_temp()
            &&& compiled.end_label == final(source).next_label()
        },
{
    reveal(selected_of);
    reveal(Compiled::compiles);
    let ghost given = fragment;
    let start_temp = source.peek_temp();
    let start_label = source.peek_label();
    let FunctionFragment { body, frame, temp_map, escaping_vars } = fragment;
    let mut frame = frame;
    if !is_label_known(frame.name, names) {
        return Err(CompileError::UnknownLabel(frame.name));
    }
    proof {
        source.lemma_in_range();
    }
    let body = match frame.proc_entry_exit1(body, source) {
        Some(body) => body,
        None => {
            return Err(CompileError::OutOfTemps);
        },
    };
    proof {
        source.lemma_in_range();
    }
    let statements = match linearize(body, source) {
        Some(statements) => statements,
        None => {
            return Err(CompileError::OutOfTemps);
        },
    };
    proof {
        source.lemma_in_range();
    }
    let (blocks, done) = match basic_blocks(statements, source) {
        Some(result) => result,
        None => {
            return Err(CompileError::OutOfLabels);
        },
    };
    proof {
        source.lemma_in_range();
    }
    let statements = match trace_schedule(blocks, done, source) {
        Some(statements) => statements,
        None => {
            return Err(CompileError::OutOfLabels);
        },
    };
    proof {
        source.lemma_in_range();
    }
    let mut gen = Gen::new();
    assert(instruction_views(gen.instructions@) =~= Seq::<InstructionView>::empty());
    assert(gen.call_sites@ =~= Seq::<Label>::empty());
    match gen.munch_statements(&statements, source, names) {
        Ok(_) => {},
        Err(error) => {
            return Err(CompileError::Select(error));
        },
    }
    let Gen { instructions, call_sites } = gen;
    let selected = frame.proc_entry_exit2(instructions);
    let selected_temps = source.peek_temp();
    let end_label = source.peek_label();
    let allocation = match allocate(&selected, &mut frame, &call_sites, &temp_map, &escaping_vars, source) {
        Ok(allocation) => allocation,
        Err(error) => {
            return Err(CompileError::Allocate(error));
        },
    };
    let end_temp = source.peek_temp();
    let body = copy_instructions(&allocation.instructions);
    let subroutine = match frame.proc_entry_exit3(body, names) {
        Some(subroutine) => subroutine,
        None => {
            return Err(CompileError::UnknownLabel(frame.name));
        },
    };
    Ok(
        Compiled {
            start_temp,
            start_label,
            end_temp,
            end_label,
            selected,
            call_sites,
            selected_temps,
            allocation,
            frame,
            subroutine,
        },
    )
}

/// The pieces of data among the fragments from `at` on, in order.
pub open spec fn data_from(fragments: Seq<Fragment>, at: int) -> Seq<Data>
    decreases fragments.len() - at,
{
    if at < 0 || at >= fragments.len() {
        Seq::empty()
    } else {
        match fragments[at] {
            Fragment::Function(_) => data_from(fragments, at + 1),
            Fragment::Str(label, string) => seq![Data::Str(label, string)] + data_from(
                fragments,
                at + 1,
            ),
            Fragment::VTable { class, methods } => seq![Data::VTable { class, methods }]
                + data_from(fragments, at + 1),
        }
    }
}

/// The functions among the fragments from `at` on, in order.
pub open spec fn functions_from(fragments: Seq<Fragment>, at: int) -> Seq<FunctionFragment>
    decreases fragments.len() - at,
{
    if at < 0 || at >= fragments.len() {
        Seq::empty()
    } else {
        match fragments[at] {
            Fragment::Function(function) => seq![function] + functions_from(fragments, at + 1),
            _ => functions_from(fragments, at + 1),
        }
    }
}

/// Parts the fragments into data and functions, each in the order in
/// which they came.
pub fn split_fragments(fragments: Vec<Fragment>) -> (result: (Vec<Data>, Vec<FunctionFragment>))
    ensures
        result.0@ == data_from(fragments@, 0),
        result.1@ == functions_from(fragments@, 0),
{
    let ghost length = fragments@.len() as int;
    let mut rest = reversed(fragments);
    let mut data: Vec<Data> = Vec::new();
    let mut functions: Vec<FunctionFragment> = Vec::new();
    assert(data@ + data_from(fragments@, 0) =~= data_from(fragments@, 0));
    assert(functions@ + functions_from(fragments@, 0) =~= functions_from(fragments@, 0));
    while rest.len() > 0
        invariant
            length == fragments@.len(),
            rest@.len() <= length,
            forall|i: int| 0 <= i < rest@.len() ==> rest@[i] == fragments@[length - 1 - i],
            data_from(fragments@, 0) == data@ + data_from(fragments@, length - rest@.len()),
            functions_from(fragments@, 0) == functions@ + functions_from(
                fragments@,
                length - rest@.len(),
            ),
        decreases rest.len(),
    {
        let ghost at = length - rest@.len();
        let ghost data_before = data@;
        let ghost functions_before = functions@;
        let fragment = rest.pop().unwrap();
        assert(fragment == fragments@[at]);
        match fragment {
            Fragment::Function(function) => {
                functions.push(function);
                assert(functions@ + functions_from(fragments@, at + 1) =~= functions_before + (
                seq![function] + functions_from(fragments@, at + 1)));
            },
            Fragment::Str(label, string) => {
                data.push(Data::Str(label, string));
                assert(data@ + data_from(fragments@, at + 1) =~= data_before + (seq![
                    Data::Str(label, string),
                ] + data_from(fragments@, at + 1)));
            },
            Fragment::VTable { class, methods } => {
                data.push(Data::VTable { class, methods });
                assert(data@ + data_from(fragments@, at + 1) =~= data_before + (seq![
                    Data::VTable { class, methods },
                ] + data_from(fragments@, at + 1)));
            },
        }
    }
    assert(data@ + Seq::<Data>::empty() =~= data@);
    assert(functions@ + Seq::<FunctionFragment>::empty() =~= functions@);
    (data, functions)
}

/// The code of each compiled function.
pub open spec fn subroutines_of(functions: Seq<Compiled>) -> Seq<Subroutine> {
    functions.map_values(|compiled: Compiled| compiled.subroutine)
}

/// The pointer map of each compiled function.
pub open spec fn pointer_maps_of(functions: Seq<Compiled>) -> Seq<Vec<CallSite>> {
    functions.map_values(|compiled: Compiled| compiled.allocation.pointer_map)
}

/// Whether the functions were compiled one after the other from the
/// fragments, each taking up the temporaries and labels where the one
/// before stopped.
pub open spec fn chained(
    functions: Seq<Compiled>,
    fragments: Seq<FunctionFragment>,
    start_temp: nat,
    start_label: nat,
    end_temp: nat,
    end_label: nat,
    names: Seq<Seq<char>>,
) -> bool {
    &&& functions.len() == fragments.len()
    &&& forall|i: int|
        0 <= i < functions.len() ==> (#[trigger] functions[i]).compiles(fragments[i], names)
    &&& forall|i: int|
        0 < i < functions.len() ==> (#[trigger] functions[i]).start_temp == functions[i
            - 1].end_temp && functions[i].start_label == functions[i - 1].end_label
    &&& if functions.len() == 0 {
        end_temp == start_temp && end_label == start_label
    } else {
        &&& functions[0].start_temp == start_temp
        &&& functions[0].start_label == start_label
        &&& functions.last().end_temp == end_temp
        &&& functions.last().end_label == end_label
    }
}

/// A compiled program.
#[derive(Debug)]
pub struct Program {
    /// The functions, in the order of the fragments.
    pub functions: Vec<Compiled>,
    /// The listing for the assembler.
    pub text: String,
}

/// When compiling the function behind a chain of compiled functions
/// ends the compilation, and why: compiling it fails; or it compiles and
/// the label of one of its call sites has a name that is not in the
/// table.
pub open spec fn stops_at(
    fragment: FunctionFragment,
    next_temp: nat,
    next_label: nat,
    names: Seq<Seq<char>>,
    error: CompileError,
) -> bool {
    ||| function_fails(fragment, next_temp, next_label, names, error)
    ||| error == CompileError::UnknownData && exists|compiled: Compiled| #[trigger]
        compiled.compiles(fragment, names) && compiled.start_temp == next_temp
            && compiled.start_label == next_label && !sites_known(
            compiled.allocation.pointer_map@,
            names,
        )
}

/// When the compilation of the functions ends early, and why: the
/// functions in front of one compiled in a chain, and that one ends the
/// compilation.
pub open spec fn stops(
    functions: Seq<FunctionFragment>,
    start_temp: nat,
    start_label: nat,
    names: Seq<Seq<char>>,
    error: CompileError,
) -> bool {
    exists|done: Seq<Compiled>, end_temp: nat, end_label: nat| #[trigger]
        chained(
            done,
            functions.take(done.len() as int),
            start_temp,
            start_label,
            end_temp,
            end_label,
            names,
        ) && done.len() < functions.len() && maps_known(pointer_maps_of(done), names) && stops_at(
            functions[done.len() as int],
            end_temp,
            end_label,
            names,
            error,
        )
}

fn compile_functions(
    text: &mut String,
    functions: Vec<FunctionFragment>,
    source: &mut TempSource,
    names: &Strings,
) -> (result: Result<Vec<Compiled>, CompileError>)
    requires
        forall|i: int| 0 <= i < functions@.len() ==> (#[trigger] functions@[i]).frame.wf(),
    ensures
        result matches Err(error) ==> stops(
            functions@,
            old(source).next_temp(),
            old(source).next_label(),
            names@,
            error,
        ),
        result matches Ok(compiled) ==> {
            &&& chained(
                compiled@,
                functions@,
                old(source).next_temp(),
                old(source).next_label(),
                final(source).next_temp(),
                final(source).next_label(),
                names@,
            )
            &&& maps_known(pointer_maps_of(compiled@), names@)
            &&& final(text)@ == old(text)@ + concat_map(
                subroutines_of(compiled@),
                subroutine_renderer(),
            )
        },
{
    let ghost base = text@;
    let ghost length = functions@.len() as int;
    let mut rest = reversed(functions);
    let mut compiled: Vec<Compiled> = Vec::new();
    assert(subroutines_of(compiled@) =~= Seq::<Subroutine>::empty());
    assert(text@ =~= base + concat_map(subroutines_of(compiled@), subroutine_renderer()));
    while rest.len() > 0
        invariant
            length == functions@.len(),
            rest@.len() <= length,
            forall|i: int| 0 <= i < rest@.len() ==> rest@[i] == functions@[length - 1 - i],
            forall|i: int| 0 <= i < functions@.len() ==> (#[trigger] functions@[i]).frame.wf(),
            compiled@.len() == length - rest@.len(),
            chained(
                compiled@,
                functions@.take(compiled@.len() as int),
                old(source).next_temp(),
                old(source).next_label(),
                source.next_temp(),
                source.next_label(),
                names@,
            ),
            maps_known(pointer_maps_of(compiled@), names@),
            text@ == base + concat_map(subroutines_of(compiled@), subroutine_renderer()),
        decreases rest.len(),
    {
        let ghost at = length - rest@.len();
        let ghost before = compiled@;
        let ghost before_text = text@;
        let ghost temp = source.next_temp();
        let ghost label = source.next_label();
        let fragment = rest.pop().unwrap();
        assert(fragment == functions@[at]);
        let function = match compile_function(fragment, source, names) {
            Ok(function) => function,
            Err(error) => {
                assert(stops_at(functions@[at], temp, label, names@, error));
                assert(chained(
                    before,
                    functions@.take(before.len() as int),
                    old(source).next_temp(),
                    old(source).next_label(),
                    temp,
                    label,
                    names@,
                ));
                return Err(error);
            },
        };
        if !are_sites_known(&function.allocation.pointer_map, names) {
            assert(stops_at(functions@[at], temp, label, names@, CompileError::UnknownData));
            assert(chained(
                before,
                functions@.take(before.len() as int),
                old(source).next_temp(),
                old(source).next_label(),
                temp,
                label,
                names@,
            ));
            return Err(CompileError::UnknownData);
        }
        push_subroutine(text, &function.subroutine);
        compiled.push(function);
        proof {
            lemma_pushed(before, function, functions@, names@);
            assert(subroutines_of(compiled@).drop_last() =~= subroutines_of(before));
            assert(text@ =~= base + concat_map(subroutines_of(compiled@), subroutine_renderer()));
        }
    }
    assert(functions@.take(length) =~= functions@);
    Ok(compiled)
}

/// One more compiled function behind a chain makes a longer chain.
proof fn lemma_pushed(
    before: Seq<Compiled>,
    function: Compiled,
    fragments: Seq<FunctionFragment>,
    names: Seq<Seq<char>>,
)
    requires
        before.len() < fragments.len(),
        function.compiles(fragments[before.len() as int], names),
        forall|i: int|
            0 <= i < before.len() ==> (#[trigger] before[i]).compiles(fragments[i], names),
        forall|i: int|
            0 < i < before.len() ==> (#[trigger] before[i]).start_temp == before[i - 1].end_temp
                && before[i].start_label == before[i - 1].end_label,
        before.len() > 0 ==> function.start_temp == before.last().end_temp && function.start_label
            == before.last().end_label,
    ensures
        forall|i: int|
            0 <= i < before.len() + 1 ==> (#[trigger] before.push(function)[i]).compiles(
                fragments.take(before.len() as int + 1)[i],
                names,
            ),
        forall|i: int|
            0 < i < before.len() + 1 ==> (#[trigger] before.push(function)[i]).start_temp
                == before.push(function)[i - 1].end_temp && before.push(function)[i].start_label
                == before.push(function)[i - 1].end_label,
        subroutines_of(before.push(function)) == subroutines_of(before).push(function.subroutine),
        pointer_maps_of(before.push(function)) == pointer_maps_of(before).push(
            function.allocation.pointer_map,
        ),
{
    let after = before.push(function);
    assert forall|i: int| 0 <= i < before.len() + 1 implies (#[trigger] after[i]).compiles(
        fragments.take(before.len() as int + 1)[i],
        names,
    ) by {
        if i < before.len() {
            assert(after[i] == before[i]);
        }
    }
    assert forall|i: int| 0 < i < before.len() + 1 implies (#[trigger] after[i]).start_temp
        == after[i - 1].end_temp && after[i].start_label == after[i - 1].end_label by {
        assert(after[i - 1] == before[i - 1]);
        if i < before.len() {
            assert(after[i] == before[i]);
        }
    }
    assert(subroutines_of(after) =~= subroutines_of(before).push(function.subroutine));
    assert(pointer_maps_of(after) =~= pointer_maps_of(before).push(
        function.allocation.pointer_map,
    ));
}

fn push_maps(text: &mut String, compiled: &Vec<Compiled>, names: &Strings)
    requires
        maps_known(pointer_maps_of(compiled@), names@),
    ensures
        final(text)@ == old(text)@ + concat_map(
            pointer_maps_of(compiled@),
            sites_renderer(names@),
        ),
{
    let ghost middle = text@;
    let ghost maps = pointer_maps_of(compiled@);
    let ghost render = sites_renderer(names@);
    let mut index: usize = 0;
    assert(text@ =~= middle + concat_map(maps.take(0), render));
    while index < compiled.len()
        invariant
            index <= compiled@.len(),
            maps == pointer_maps_of(compiled@),
            maps_known(maps, names@),
            render == sites_renderer(names@),
            text@ == middle + concat_map(maps.take(index as int), render),
        decreases compiled.len() - index,
    {
        proof {
            lemma_concat_map_step(maps, render, index as int);
            assert(sites_known(maps[index as int]@, names@));
        }
        push_sites(text, &compiled[index].allocation.pointer_map, names);
        assert(text@ =~= middle + concat_map(maps.take(index + 1), render));
        index += 1;
    }
    assert(maps.take(compiled@.len() as int) =~= maps);
}

/// Compiles the functions one after the other and writes the listing: the
/// head, the data, the code of each function, and the pointer map.
pub fn compile(
    externals: &Vec<String>,
    data: &Vec<Data>,
    functions: Vec<FunctionFragment>,
    layout: StringLayout,
    source: &mut TempSource,
    names: &Strings,
) -> (result: Result<Program, CompileError>)
    requires
        forall|i: int| 0 <= i < functions@.len() ==> (#[trigger] functions@[i]).frame.wf(),
    ensures
        !all_data_known(data@, names@) ==> (result matches Err(error) && error
            == CompileError::UnknownData),
        result matches Err(error) ==> (!all_data_known(data@, names@) && error
            == CompileError::UnknownData) || (all_data_known(data@, names@) && stops(
            functions@,
            old(source).next_temp(),
            old(source).next_label(),
            names@,
            error,
        )),
        result matches Ok(program) ==> {
            &&& all_data_known(data@, names@)
            &&& chained(
                program.functions@,
                functions@,
                old(source).next_temp(),
                old(source).next_label(),
                final(source).next_temp(),
                final(source).next_label(),
                names@,
            )
            &&& maps_known(pointer_maps_of(program.functions@), names@)
            &&& program.text@ == listing_text(
                externals@,
                data@,
                layout,
                subroutines_of(program.functions@),
                pointer_maps_of(program.functions@),
                names@,
            )
        },
{
    if !is_all_data_known(data, names) {
        return Err(CompileError::UnknownData);
    }
    let mut text = String::new();
    push_header(&mut text, externals);
    push_data_section(&mut text, data, layout, names);
    text.append("\nsection .text\n");
    let compiled = match compile_functions(&mut text, functions, source, names) {
        Ok(compiled) => compiled,
        Err(error) => {
            return Err(error);
        },
    };
    text.append("\n");
    text.append(POINTER_MAP_NAME);
    text.append(":\n");
    push_maps(&mut text, &compiled, names);
    push_end_line(&mut text);
    text.append(END_MARKER);
    text.append(":\n");
    assert(text@ =~= listing_text(
        externals@,
        data@,
        layout,
        subroutines_of(compiled@),
        pointer_maps_of(compiled@),
        names@,
    ));
    Ok(Program { functions: compiled, text })
}

} // verus!
