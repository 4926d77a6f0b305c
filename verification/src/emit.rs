//! The text of the NASM listing: data for strings and method tables, the
//! code of each function, and the table of pointers that are live at calls.

use crate::assembly::Instruction;
use crate::symbol::Strings;
use crate::temp::{
    are_labels_known,
    is_label_known,
    label_known,
    label_text,
    labels_known,
    push_label,
    Label,
};
use crate::text::{
    chars_of,
    concat_map,
    decimal,
    lemma_concat_map_step,
    push_decimal,
    push_signed_decimal,
    signed_decimal,
};
use vstd::prelude::*;

verus! {

/// The symbol that ends every entry of the pointer map and the map itself.
pub const END_MARKER: &'static str = "__tiger_pointer_map_end";

/// The symbol at which the pointer map starts.
pub const POINTER_MAP_NAME: &'static str = "__tiger_pointer_map";

/// How the collector sees a string: the word that marks a string, and the
/// number of words in front of the characters.
#[derive(Clone, Copy, Debug)]
pub struct StringLayout {
    pub type_tag: u64,
    pub header_words: usize,
}

/// A piece of static data.
#[derive(Clone, Debug, PartialEq, Eq)]
pub enum Data {
    /// A string literal at a label.
    Str(Label, String),
    /// The method table of a class: one label per method slot.
    VTable { class: Label, methods: Vec<Label> },
}

/// The code of one function, ready to be written.
#[derive(Clone, Debug, PartialEq, Eq)]
pub struct Subroutine {
    pub prolog: String,
    pub body: Vec<Instruction>,
    pub epilog: String,
}

/// Where a pointer lives while a call is under way.
#[derive(Clone, Copy, Debug, PartialEq, Eq, Structural)]
pub enum PointerLocation {
    /// In the register with this number.
    Register(usize),
    /// In the frame, at this offset from the frame pointer.
    Frame(i64),
}

/// The pointers that are live at one call.
#[derive(Clone, Debug, PartialEq, Eq)]
pub struct CallSite {
    pub label: Label,
    pub pointers: Vec<PointerLocation>,
}

/// What a character of a string literal becomes between NASM's single
/// quotes: a quote, a newline and a tab leave the quotes and are written as
/// their code; any other character stands for itself.
pub open spec fn nasm_char(ch: char) -> Seq<char> {
    if ch == '\'' || ch == '\n' || ch == '\t' {
        "', "@ + decimal(ch as nat) + ", '"@
    } else {
        seq![ch]
    }
}

/// A string literal as an operand of NASM's `db`.
pub open spec fn nasm_quoted(string: Seq<char>) -> Seq<char> {
    seq!['\''] + concat_map(string, |ch: char| nasm_char(ch)) + seq!['\'']
}

/// Writes a string literal as an operand of NASM's `db`.
pub fn to_nasm(string: &str) -> (result: String)
    ensures
        result@ == nasm_quoted(string@),
{
    let chars = chars_of(string);
    let ghost render = |ch: char| nasm_char(ch);
    let mut result = String::new();
    result.push('\'');
    let mut index: usize = 0;
    while index < chars.len()
        invariant
            index <= chars.len(),
            chars@ == string@,
            render == (|ch: char| nasm_char(ch)),
            result@ == seq!['\''] + concat_map(string@.take(index as int), render),
        decreases chars.len() - index,
    {
        proof {
            lemma_concat_map_step(string@, render, index as int);
        }
        let ghost before = result@;
        let ch = chars[index];
        if ch == '\'' || ch == '\n' || ch == '\t' {
            result.append("', ");
            push_decimal(&mut result, ch as u64);
            result.append(", '");
        } else {
            result.push(ch);
        }
        assert(result@ =~= before + nasm_char(ch));
        index += 1;
    }
    assert(string@.take(chars.len() as int) =~= string@);
    result.push('\'');
    result
}

/// `count` copies of `text`, one after the other.
pub open spec fn repeated(text: Seq<char>, count: nat) -> Seq<char>
    decreases count,
{
    if count == 0 {
        Seq::empty()
    } else {
        repeated(text, (count - 1) as nat) + text
    }
}

/// The line that declares a function of the runtime.
pub open spec fn extern_line(name: String) -> Seq<char> {
    "extern "@ + name@ + "\n"@
}

/// `extern_line` as a function value.
pub open spec fn extern_renderer() -> spec_fn(String) -> Seq<char> {
    |name: String| extern_line(name)
}

/// The head of the listing: the three global symbols, one `extern` line for
/// each function of the runtime, and an empty line.
pub open spec fn header_text(externals: Seq<String>) -> Seq<char> {
    "global main\n"@ + "global "@ + POINTER_MAP_NAME@ + "\n"@ + "global "@ + END_MARKER@ + "\n"@
        + concat_map(externals, extern_renderer()) + "\n"@
}

/// A line that holds one label as a quad word.
pub open spec fn label_line(label: Label, names: Seq<Seq<char>>) -> Seq<char> {
    "    dq "@ + label_text(label, names) + "\n"@
}

/// `label_line` with these names, as a function value.
pub open spec fn label_renderer(names: Seq<Seq<char>>) -> spec_fn(Label) -> Seq<char> {
    |label: Label| label_line(label, names)
}

/// The number of zero words between the type word of a string and its
/// characters.
pub open spec fn filler_words(layout: StringLayout) -> nat {
    if layout.header_words >= 1 {
        (layout.header_words - 1) as nat
    } else {
        0
    }
}

/// The data of a string literal: its label, the word that marks it as a
/// string, zero words up to the size of the header, and the characters with
/// a zero byte after them.
pub open spec fn string_data_text(
    label: Label,
    string: Seq<char>,
    layout: StringLayout,
    names: Seq<Seq<char>>,
) -> Seq<char> {
    "    "@ + label_text(label, names) + ": "@ + "dq "@ + decimal(layout.type_tag as nat) + "\n"@
        + repeated("dq 0\n"@, filler_words(layout)) + "db "@ + nasm_quoted(string) + ", 0\n"@
}

/// The data of a method table: the label of the class, then one quad word
/// per method.
pub open spec fn vtable_text(class: Label, methods: Seq<Label>, names: Seq<Seq<char>>) -> Seq<
    char,
> {
    label_text(class, names) + ":\n"@ + concat_map(methods, label_renderer(names))
}

/// The text of one piece of data.
pub open spec fn data_text(data: Data, layout: StringLayout, names: Seq<Seq<char>>) -> Seq<char> {
    match data {
        Data::Str(label, string) => string_data_text(label, string@, layout, names),
        Data::VTable { class, methods } => vtable_text(class, methods@, names),
    }
}

/// `data_text` with this layout and these names, as a function value.
pub open spec fn data_renderer(layout: StringLayout, names: Seq<Seq<char>>) -> spec_fn(
    Data,
) -> Seq<char> {
    |data: Data| data_text(data, layout, names)
}

/// Whether every label of a piece of data can be written.
pub open spec fn data_known(data: Data, names: Seq<Seq<char>>) -> bool {
    match data {
        Data::Str(label, _) => label_known(label, names),
        Data::VTable { class, methods } => label_known(class, names) && labels_known(
            methods@,
            names,
        ),
    }
}

/// Whether every label of every piece of data can be written.
pub open spec fn all_data_known(fragments: Seq<Data>, names: Seq<Seq<char>>) -> bool {
    forall|i: int| 0 <= i < fragments.len() ==> data_known(#[trigger] fragments[i], names)
}

/// The data section: its two opening lines and every piece of data.
pub open spec fn data_section_text(
    fragments: Seq<Data>,
    layout: StringLayout,
    names: Seq<Seq<char>>,
) -> Seq<char> {
    "section .data\n"@ + "    align 2\n"@ + concat_map(fragments, data_renderer(layout, names))
}

/// The line of an instruction in the listing. An instruction without text
/// has no line.
pub open spec fn instruction_line(instruction: Instruction) -> Seq<char> {
    if instruction.rendered().len() == 0 {
        Seq::empty()
    } else {
        "    "@ + instruction.rendered() + "\n"@
    }
}

/// `instruction_line` as a function value.
pub open spec fn instruction_renderer() -> spec_fn(Instruction) -> Seq<char> {
    |instruction: Instruction| instruction_line(instruction)
}

/// The code of one function: the prologue, a line per instruction, the
/// epilogue.
pub open spec fn subroutine_text(subroutine: Subroutine) -> Seq<char> {
    subroutine.prolog@ + "\n"@ + concat_map(subroutine.body@, instruction_renderer()) + "    "@
        + subroutine.epilog@ + "\n"@
}

/// `subroutine_text` as a function value.
pub open spec fn subroutine_renderer() -> spec_fn(Subroutine) -> Seq<char> {
    |subroutine: Subroutine| subroutine_text(subroutine)
}

/// The text section: its opening line after an empty one, and every
/// function.
pub open spec fn text_section_text(subroutines: Seq<Subroutine>) -> Seq<char> {
    "\nsection .text\n"@ + concat_map(subroutines, subroutine_renderer())
}

/// The number that stands for a pointer's home in the pointer map: the
/// number of the register, or the offset in the frame.
pub open spec fn location_text(location: PointerLocation) -> Seq<char> {
    match location {
        PointerLocation::Register(num) => decimal(num as nat),
        PointerLocation::Frame(offset) => signed_decimal(offset as int),
    }
}

/// The line of one pointer in the pointer map.
pub open spec fn location_line(location: PointerLocation) -> Seq<char> {
    "    dq "@ + location_text(location) + "\n"@
}

/// `location_line` as a function value.
pub open spec fn location_renderer() -> spec_fn(PointerLocation) -> Seq<char> {
    |location: PointerLocation| location_line(location)
}

/// The line that ends an entry of the pointer map, and the map.
pub open spec fn end_line() -> Seq<char> {
    "    dq "@ + END_MARKER@ + "\n"@
}

/// The entry of one call: the label of the call, the pointers that are live
/// there, the end marker.
pub open spec fn site_text(site: CallSite, names: Seq<Seq<char>>) -> Seq<char> {
    label_line(site.label, names) + concat_map(site.pointers@, location_renderer()) + end_line()
}

/// `site_text` with these names, as a function value.
pub open spec fn site_renderer(names: Seq<Seq<char>>) -> spec_fn(CallSite) -> Seq<char> {
    |site: CallSite| site_text(site, names)
}

/// The entries of the calls of one function.
pub open spec fn sites_text(sites: Vec<CallSite>, names: Seq<Seq<char>>) -> Seq<char> {
    concat_map(sites@, site_renderer(names))
}

/// `sites_text` with these names, as a function value.
pub open spec fn sites_renderer(names: Seq<Seq<char>>) -> spec_fn(Vec<CallSite>) -> Seq<char> {
    |sites: Vec<CallSite>| sites_text(sites, names)
}

/// Whether the label of every call can be written.
pub open spec fn sites_known(sites: Seq<CallSite>, names: Seq<Seq<char>>) -> bool {
    forall|i: int| 0 <= i < sites.len() ==> label_known((#[trigger] sites[i]).label, names)
}

/// Whether the label of every call of every function can be written.
pub open spec fn maps_known(maps: Seq<Vec<CallSite>>, names: Seq<Seq<char>>) -> bool {
    forall|i: int| 0 <= i < maps.len() ==> sites_known((#[trigger] maps[i])@, names)
}

/// The pointer map: its label, the entries of every function in order, the
/// end marker as a last word, and the label of the end marker.
pub open spec fn pointer_map_text(maps: Seq<Vec<CallSite>>, names: Seq<Seq<char>>) -> Seq<char> {
    POINTER_MAP_NAME@ + ":\n"@ + concat_map(maps, sites_renderer(names)) + end_line()
        + END_MARKER@ + ":\n"@
}

/// The whole listing: head, data section, text section, an empty line and
/// the pointer map.
pub open spec fn listing_text(
    externals: Seq<String>,
    fragments: Seq<Data>,
    layout: StringLayout,
    subroutines: Seq<Subroutine>,
    maps: Seq<Vec<CallSite>>,
    names: Seq<Seq<char>>,
) -> Seq<char> {
    header_text(externals) + data_section_text(fragments, layout, names) + text_section_text(
        subroutines,
    ) + "\n"@ + pointer_map_text(maps, names)
}

pub(crate) fn push_header(text: &mut String, externals: &Vec<String>)
    ensures
        final(text)@ == old(text)@ + header_text(externals@),
{
    text.append("global main\n");
    text.append("global ");
    text.append(POINTER_MAP_NAME);
    text.append("\n");
    text.append("global ");
    text.append(END_MARKER);
    text.append("\n");
    let ghost base = text@;
    let ghost render = extern_renderer();
    let mut index: usize = 0;
    while index < externals.len()
        invariant
            index <= externals.len(),
            render == extern_renderer(),
            text@ == base + concat_map(externals@.take(index as int), render),
        decreases externals.len() - index,
    {
        proof {
            lemma_concat_map_step(externals@, render, index as int);
        }
        let ghost before = text@;
        text.append("extern ");
        text.append(externals[index].as_str());
        text.append("\n");
        assert(text@ =~= before + extern_line(externals@[index as int]));
        index += 1;
    }
    assert(externals@.take(externals.len() as int) =~= externals@);
    text.append("\n");
    assert(text@ =~= old(text)@ + header_text(externals@));
}

fn push_label_line(text: &mut String, label: Label, names: &Strings)
    requires
        label_known(label, names@),
    ensures
        final(text)@ == old(text)@ + label_line(label, names@),
{
    text.append("    dq ");
    push_label(text, label, names);
    text.append("\n");
    assert(text@ =~= old(text)@ + label_line(label, names@));
}

fn push_repeated(text: &mut String, line: &str, count: usize)
    ensures
        final(text)@ == old(text)@ + repeated(line@, count as nat),
{
    let mut done: usize = 0;
    assert(text@ =~= old(text)@ + repeated(line@, 0));
    while done < count
        invariant
            done <= count,
            text@ == old(text)@ + repeated(line@, done as nat),
        decreases count - done,
    {
        text.append(line);
        done += 1;
        assert(text@ =~= old(text)@ + repeated(line@, done as nat));
    }
}

fn push_data(text: &mut String, data: &Data, layout: StringLayout, names: &Strings)
    requires
        data_known(*data, names@),
    ensures
        final(text)@ == old(text)@ + data_text(*data, layout, names@),
{
    match data {
        Data::Str(label, string) => {
            text.append("    ");
            push_label(text, *label, names);
            text.append(": ");
            text.append("dq ");
            push_decimal(text, layout.type_tag);
            text.append("\n");
            let filler = if layout.header_words >= 1 {
                layout.header_words - 1
            } else {
                0
            };
            push_repeated(text, "dq 0\n", filler);
            text.append("db ");
            let quoted = to_nasm(string.as_str());
            text.append(quoted.as_str());
            text.append(", 0\n");
            assert(text@ =~= old(text)@ + string_data_text(*label, string@, layout, names@));
        },
        Data::VTable { class, methods } => {
            push_label(text, *class, names);
            text.append(":\n");
            let ghost base = text@;
            let ghost render = label_renderer(names@);
            let mut index: usize = 0;
            while index < methods.len()
                invariant
                    index <= methods.len(),
                    labels_known(methods@, names@),
                    render == label_renderer(names@),
                    text@ == base + concat_map(methods@.take(index as int), render),
                decreases methods.len() - index,
            {
                proof {
                    lemma_concat_map_step(methods@, render, index as int);
                }
                push_label_line(text, methods[index], names);
                assert(text@ =~= base + concat_map(methods@.take(index + 1), render));
                index += 1;
            }
            assert(methods@.take(methods.len() as int) =~= methods@);
            assert(text@ =~= old(text)@ + vtable_text(*class, methods@, names@));
        },
    }
}

pub(crate) fn push_data_section(
    text: &mut String,
    fragments: &Vec<Data>,
    layout: StringLayout,
    names: &Strings,
)
    requires
        all_data_known(fragments@, names@),
    ensures
        final(text)@ == old(text)@ + data_section_text(fragments@, layout, names@),
{
    text.append("section .data\n");
    text.append("    align 2\n");
    let ghost base = text@;
    let ghost render = data_renderer(layout, names@);
    let mut index: usize = 0;
    while index < fragments.len()
        invariant
            index <= fragments.len(),
            all_data_known(fragments@, names@),
            render == data_renderer(layout, names@),
            text@ == base + concat_map(fragments@.take(index as int), render),
        decreases fragments.len() - index,
    {
        proof {
            lemma_concat_map_step(fragments@, render, index as int);
        }
        push_data(text, &fragments[index], layout, names);
        assert(text@ =~= base + concat_map(fragments@.take(index + 1), render));
        index += 1;
    }
    assert(fragments@.take(fragments.len() as int) =~= fragments@);
    assert(text@ =~= old(text)@ + data_section_text(fragments@, layout, names@));
}

pub(crate) fn push_subroutine(text: &mut String, subroutine: &Subroutine)
    ensures
        final(text)@ == old(text)@ + subroutine_text(*subroutine),
{
    text.append(subroutine.prolog.as_str());
    text.append("\n");
    let ghost base = text@;
    let ghost render = instruction_renderer();
    let mut index: usize = 0;
    while index < subroutine.body.len()
        invariant
            index <= subroutine.body.len(),
            render == instruction_renderer(),
            text@ == base + concat_map(subroutine.body@.take(index as int), render),
        decreases subroutine.body.len() - index,
    {
        proof {
            lemma_concat_map_step(subroutine.body@, render, index as int);
        }
        let ghost before = text@;
        let line = subroutine.body[index].to_string();
        if !line.as_str().is_empty() {
            text.append("    ");
            text.append(line.as_str());
            text.append("\n");
        }
        assert(text@ =~= before + instruction_line(subroutine.body@[index as int]));
        index += 1;
    }
    assert(subroutine.body@.take(subroutine.body.len() as int) =~= subroutine.body@);
    text.append("    ");
    text.append(subroutine.epilog.as_str());
    text.append("\n");
    assert(text@ =~= old(text)@ + subroutine_text(*subroutine));
}

fn push_text_section(text: &mut String, subroutines: &Vec<Subroutine>)
    ensures
        final(text)@ == old(text)@ + text_section_text(subroutines@),
{
    text.append("\nsection .text\n");
    let ghost base = text@;
    let ghost render = subroutine_renderer();
    let mut index: usize = 0;
    while index < subroutines.len()
        invariant
            index <= subroutines.len(),
            render == subroutine_renderer(),
            text@ == base + concat_map(subroutines@.take(index as int), render),
        decreases subroutines.len() - index,
    {
        proof {
            lemma_concat_map_step(subroutines@, render, index as int);
        }
        push_subroutine(text, &subroutines[index]);
        assert(text@ =~= base + concat_map(subroutines@.take(index + 1), render));
        index += 1;
    }
    assert(subroutines@.take(subroutines.len() as int) =~= subroutines@);
    assert(text@ =~= old(text)@ + text_section_text(subroutines@));
}

pub(crate) fn push_end_line(text: &mut String)
    ensures
        final(text)@ == old(text)@ + end_line(),
{
    text.append("    dq ");
    text.append(END_MARKER);
    text.append("\n");
    assert(text@ =~= old(text)@ + end_line());
}

fn push_site(text: &mut String, site: &CallSite, names: &Strings)
    requires
        label_known(site.label, names@),
    ensures
        final(text)@ == old(text)@ + site_text(*site, names@),
{
    push_label_line(text, site.label, names);
    let ghost base = text@;
    let ghost render = location_renderer();
    let mut index: usize = 0;
    while index < site.pointers.len()
        invariant
            index <= site.pointers.len(),
            render == location_renderer(),
            text@ == base + concat_map(site.pointers@.take(index as int), render),
        decreases site.pointers.len() - index,
    {
        proof {
            lemma_concat_map_step(site.pointers@, render, index as int);
        }
        let ghost before = text@;
        text.append("    dq ");
        match site.pointers[index] {
            PointerLocation::Register(num) => {
                push_decimal(text, num as u64);
            },
            PointerLocation::Frame(offset) => {
                push_signed_decimal(text, offset);
            },
        }
        text.append("\n");
        assert(text@ =~= before + location_line(site.pointers@[index as int]));
        index += 1;
    }
    assert(site.pointers@.take(site.pointers.len() as int) =~= site.pointers@);
    push_end_line(text);
    assert(text@ =~= old(text)@ + site_text(*site, names@));
}

pub(crate) fn push_sites(text: &mut String, sites: &Vec<CallSite>, names: &Strings)
    requires
        sites_known(sites@, names@),
    ensures
        final(text)@ == old(text)@ + sites_text(*sites, names@),
{
    let ghost base = text@;
    let ghost render = site_renderer(names@);
    let mut index: usize = 0;
    assert(text@ =~= base + concat_map(sites@.take(0), render));
    while index < sites.len()
        invariant
            index <= sites.len(),
            sites_known(sites@, names@),
            render == site_renderer(names@),
            text@ == base + concat_map(sites@.take(index as int), render),
        decreases sites.len() - index,
    {
        proof {
            lemma_concat_map_step(sites@, render, index as int);
        }
        push_site(text, &sites[index], names);
        assert(text@ =~= base + concat_map(sites@.take(index + 1), render));
        index += 1;
    }
    assert(sites@.take(sites.len() as int) =~= sites@);
}

fn push_pointer_map(text: &mut String, maps: &Vec<Vec<CallSite>>, names: &Strings)
    requires
        maps_known(maps@, names@),
    ensures
        final(text)@ == old(text)@ + pointer_map_text(maps@, names@),
{
    text.append(POINTER_MAP_NAME);
    text.append(":\n");
    let ghost base = text@;
    let ghost render = sites_renderer(names@);
    let mut index: usize = 0;
    while index < maps.len()
        invariant
            index <= maps.len(),
            maps_known(maps@, names@),
            render == sites_renderer(names@),
            text@ == base + concat_map(maps@.take(index as int), render),
        decreases maps.len() - index,
    {
        proof {
            lemma_concat_map_step(maps@, render, index as int);
        }
        push_sites(text, &maps[index], names);
        assert(text@ =~= base + concat_map(maps@.take(index + 1), render));
        index += 1;
    }
    assert(maps@.take(maps.len() as int) =~= maps@);
    push_end_line(text);
    text.append(END_MARKER);
    text.append(":\n");
    assert(text@ =~= old(text)@ + pointer_map_text(maps@, names@));
}

/// Tests whether every label of every piece of data can be written.
pub fn is_all_data_known(fragments: &Vec<Data>, names: &Strings) -> (known: bool)
    ensures
        known == all_data_known(fragments@, names@),
{
    let mut index: usize = 0;
    while index < fragments.len()
        invariant
            index <= fragments.len(),
            forall|i: int| 0 <= i < index ==> data_known(#[trigger] fragments@[i], names@),
        decreases fragments.len() - index,
    {
        let known = match &fragments[index] {
            Data::Str(label, _) => is_label_known(*label, names),
            Data::VTable { class, methods } => is_label_known(*class, names) && are_labels_known(
                methods,
                names,
            ),
        };
        if !known {
            return false;
        }
        index += 1;
    }
    true
}

/// Tests whether the label of every call can be written.
pub fn are_sites_known(sites: &Vec<CallSite>, names: &Strings) -> (known: bool)
    ensures
        known == sites_known(sites@, names@),
{
    let mut index: usize = 0;
    while index < sites.len()
        invariant
            index <= sites.len(),
            forall|i: int| 0 <= i < index ==> label_known((#[trigger] sites@[i]).label, names@),
        decreases sites.len() - index,
    {
        if !is_label_known(sites[index].label, names) {
            return false;
        }
        index += 1;
    }
    true
}

/// Tests whether the label of every call of every function can be written.
pub fn is_map_known(maps: &Vec<Vec<CallSite>>, names: &Strings) -> (known: bool)
    ensures
        known == maps_known(maps@, names@),
{
    let mut outer: usize = 0;
    while outer < maps.len()
        invariant
            outer <= maps.len(),
            forall|i: int| 0 <= i < outer ==> sites_known((#[trigger] maps@[i])@, names@),
        decreases maps.len() - outer,
    {
        let sites = &maps[outer];
        let mut inner: usize = 0;
        while inner < sites.len()
            invariant
                inner <= sites.len(),
                outer < maps.len(),
                sites == &maps@[outer as int],
                forall|i: int| 0 <= i < inner ==> label_known((#[trigger] sites@[i]).label, names@),
            decreases sites.len() - inner,
        {
            if !is_label_known(sites[inner].label, names) {
                return false;
            }
            inner += 1;
        }
        outer += 1;
    }
    true
}

/// The head of the listing.
pub fn header(externals: &Vec<String>) -> (text: String)
    ensures
        text@ == header_text(externals@),
{
    let mut text = String::new();
    push_header(&mut text, externals);
    assert(text@ =~= header_text(externals@));
    text
}

/// The data section, or `None` when a label in it has a name that is not in
/// the table.
pub fn data_section(fragments: &Vec<Data>, layout: StringLayout, names: &Strings) -> (text: Option<
    String,
>)
    ensures
        text is Some <==> all_data_known(fragments@, names@),
        text is Some ==> text->0@ == data_section_text(fragments@, layout, names@),
{
    if !is_all_data_known(fragments, names) {
        return None;
    }
    let mut text = String::new();
    push_data_section(&mut text, fragments, layout, names);
    assert(text@ =~= data_section_text(fragments@, layout, names@));
    Some(text)
}

/// The text section.
pub fn text_section(subroutines: &Vec<Subroutine>) -> (text: String)
    ensures
        text@ == text_section_text(subroutines@),
{
    let mut text = String::new();
    push_text_section(&mut text, subroutines);
    assert(text@ =~= text_section_text(subroutines@));
    text
}

/// The pointer map, or `None` when the label of a call has a name that is
/// not in the table.
pub fn pointer_map(maps: &Vec<Vec<CallSite>>, names: &Strings) -> (text: Option<String>)
    ensures
        text is Some <==> maps_known(maps@, names@),
        text is Some ==> text->0@ == pointer_map_text(maps@, names@),
{
    if !is_map_known(maps, names) {
        return None;
    }
    let mut text = String::new();
    push_pointer_map(&mut text, maps, names);
    assert(text@ =~= pointer_map_text(maps@, names@));
    Some(text)
}

/// The whole listing, or `None` when a label in the data or in the pointer
/// map has a name that is not in the table.
pub fn listing(
    externals: &Vec<String>,
    fragments: &Vec<Data>,
    layout: StringLayout,
    subroutines: &Vec<Subroutine>,
    maps: &Vec<Vec<CallSite>>,
    names: &Strings,
) -> (text: Option<String>)
    ensures
        text is Some <==> all_data_known(fragments@, names@) && maps_known(maps@, names@),
        text is Some ==> text->0@ == listing_text(
            externals@,
            fragments@,
            layout,
            subroutines@,
            maps@,
            names@,
        ),
{
    if !is_all_data_known(fragments, names) || !is_map_known(maps, names) {
        return None;
    }
    let mut text = String::new();
    push_header(&mut text, externals);
    push_data_section(&mut text, fragments, layout, names);
    push_text_section(&mut text, subroutines);
    text.append("\n");
    push_pointer_map(&mut text, maps, names);
    assert(text@ =~= listing_text(externals@, fragments@, layout, subroutines@, maps@, names@));
    Some(text)
}

} // verus!
