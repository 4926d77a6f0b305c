//! A whole program: from what the front end hands over to the fragments
//! that the back end compiles.

use crate::analysis::{
    analyse_program, class_of, counters_of, defined, fragment_view, fragment_views, labels_of,
    vtable, Counters, Defined, Definition, Entry, Failure, Setting,
};
use crate::compile::Fragment;
use crate::declare::{
    classes_declared, declare_classes, declare_types, types_declared, ClassDeclaration,
    TypeDeclaration,
};
use crate::env::{Binding, Symbols};
use crate::temp::{Label, TempSource};
use crate::translate::{Literal, Literals};
use crate::types::{Type, TypeId};
use crate::vectors::reversed;
use crate::walk::escaping;
use vstd::prelude::*;

verus! {

/// A program as the front end hands it over: the declarations of its
/// types and of its classes, its outermost function, the number of
/// declarations of variables in it, and its string literals.
pub struct Program {
    pub types: Vec<TypeDeclaration>,
    pub classes: Vec<ClassDeclaration>,
    pub main: Definition,
    pub sites: usize,
    pub literals: Literals,
}

/// A fragment as a plain value.
pub enum Piece {
    Function(Defined),
    Str(Label, Seq<char>),
    VTable(Label, Seq<Label>),
}

/// A fragment as a plain value.
pub open spec fn piece_of(fragment: Fragment) -> Piece {
    match fragment {
        Fragment::Function(function) => Piece::Function(fragment_view(function)),
        Fragment::Str(label, text) => Piece::Str(label, text@),
        Fragment::VTable { class, methods } => Piece::VTable(class, methods@),
    }
}

/// Fragments as plain values.
pub open spec fn pieces_of(fragments: Seq<Fragment>) -> Seq<Piece> {
    Seq::new(fragments.len(), |i: int| piece_of(fragments[i]))
}

/// The string literals as fragments, in the order in which they were
/// first seen.
pub open spec fn string_pieces(literals: Seq<Literal>) -> Seq<Piece> {
    Seq::new(literals.len(), |i: int| Piece::Str(literals[i].label, literals[i].text@))
}

/// The tables of methods of the classes among the first `count` types, in
/// their order. A type that stands for no class has none.
pub open spec fn table_pieces(table: Seq<Type>, classes: Seq<TypeId>, count: int) -> Seq<Piece>
    decreases count,
{
    if count <= 0 || count > classes.len() {
        Seq::empty()
    } else {
        match class_of(table, classes[count - 1]) {
            Some((label, methods)) => table_pieces(table, classes, count - 1).push(
                Piece::VTable(label, labels_of(methods)),
            ),
            None => table_pieces(table, classes, count - 1),
        }
    }
}

/// Functions as fragments.
pub open spec fn function_pieces(functions: Seq<Defined>) -> Seq<Piece> {
    Seq::new(functions.len(), |i: int| Piece::Function(functions[i]))
}

/// Whether the frame of each function among the fragments is within its
/// limits.
pub open spec fn functions_fit(fragments: Seq<Fragment>) -> bool {
    forall|i: int|
        0 <= i < fragments.len() ==> (#[trigger] fragments[i] matches Fragment::Function(
            function,
        ) ==> function.frame.wf())
}

/// Whether a result is what the analysis of a program with the given
/// classes gives in a setting: the setting knows which variables escape,
/// and the fragments are the string literals, the tables of methods of
/// the classes, and the functions, the outermost one last; or the result
/// is the first thing that is wrong with the program.
pub open spec fn assembled(
    main: Definition,
    setting: Setting,
    sites: nat,
    literals: Seq<Literal>,
    classes: Seq<TypeId>,
    vars: Seq<Seq<Binding<Entry>>>,
    at: Counters,
    after: Counters,
    result: Result<Vec<Fragment>, Failure>,
) -> bool {
    &&& setting.escapes@ == escaping(main, setting.receiver, sites)
    &&& match defined(main, setting, 0, vars, at, Seq::empty()) {
        Ok((found, counters, inner)) => {
            &&& result matches Ok(fragments)
            &&& pieces_of(fragments@) == string_pieces(literals) + table_pieces(
                setting.types@,
                classes,
                classes.len() as int,
            ) + function_pieces(inner.push(found))
            &&& functions_fit(fragments@)
            &&& after == counters
        },
        Err(failure) => result matches Err(found) && found == failure,
    }
}

/// Analyses a program whose types are in the table: it finds the
/// variables that escape and tells the setting, analyses the functions,
/// and gives the fragments of the program: its string literals, the
/// tables of methods of its classes, and its functions, the outermost
/// one last. The result is the first thing that is wrong with the
/// program, if anything is.
pub fn fragments_of(
    main: &Definition,
    sites: usize,
    literals: &Literals,
    classes: &Vec<TypeId>,
    setting: &mut Setting,
    vars: &mut Symbols<Entry>,
    source: &mut TempSource,
) -> (result: Result<Vec<Fragment>, Failure>)
    ensures
        final(vars)@ == old(vars)@,
        final(setting).types == old(setting).types,
        final(setting).named == old(setting).named,
        final(setting).builtins == old(setting).builtins,
        final(setting).names == old(setting).names,
        final(setting).receiver == old(setting).receiver,
        assembled(
            *main,
            *final(setting),
            sites as nat,
            literals@,
            classes@,
            old(vars)@,
            counters_of(*old(source)),
            counters_of(*final(source)),
            result,
        ),
{
    let functions = match analyse_program(main, setting, sites, vars, source) {
        Ok(functions) => functions,
        Err(failure) => {
            return Err(failure);
        },
    };
    let ghost analysed = fragment_views(functions@);
    let mut fragments = literals.fragments();
    assert(pieces_of(fragments@) =~= string_pieces(literals@)) by {
        assert forall|i: int| 0 <= i < fragments@.len() implies piece_of(fragments@[i])
            == Piece::Str(literals@[i].label, literals@[i].text@) by {
            assert(crate::translate::string_of(fragments@[i]) == Some(
                (literals@[i].label, literals@[i].text@),
            ));
        }
    }
    let ghost strings = string_pieces(literals@);
    let mut index: usize = 0;
    while index < classes.len()
        invariant
            index <= classes@.len(),
            strings == string_pieces(literals@),
            pieces_of(fragments@) == strings + table_pieces(
                setting.types@,
                classes@,
                index as int,
            ),
            functions_fit(fragments@),
        decreases classes.len() - index,
    {
        let ghost before = fragments@;
        match vtable(&setting.types, classes[index]) {
            Some(fragment) => {
                fragments.push(fragment);
                assert(pieces_of(fragments@) =~= pieces_of(before).push(piece_of(fragment)));
                assert(functions_fit(fragments@)) by {
                    assert forall|i: int| 0 <= i < before.len() implies fragments@[i]
                        == before[i] by {}
                }
            },
            None => {},
        }
        assert(pieces_of(fragments@) =~= strings + table_pieces(
            setting.types@,
            classes@,
            index + 1,
        ));
        index += 1;
    }
    let ghost data = pieces_of(fragments@);
    let ghost length = functions@.len() as int;
    let ghost given = functions@;
    let mut rest = reversed(functions);
    while rest.len() > 0
        invariant
            length == given.len(),
            rest@.len() <= length,
            forall|i: int| 0 <= i < rest@.len() ==> rest@[i] == given[length - 1 - i],
            forall|i: int| 0 <= i < given.len() ==> (#[trigger] given[i]).frame.wf(),
            analysed == fragment_views(given),
            pieces_of(fragments@) == data + function_pieces(
                analysed.take(length - rest@.len()),
            ),
            functions_fit(fragments@),
        decreases rest.len(),
    {
        let ghost at = length - rest@.len();
        let ghost before = fragments@;
        let function = rest.pop().unwrap();
        assert(function == given[at]);
        fragments.push(Fragment::Function(function));
        assert(pieces_of(fragments@) =~= pieces_of(before).push(
            Piece::Function(fragment_view(function)),
        ));
        assert(analysed.take(at + 1) =~= analysed.take(at).push(fragment_view(function)));
        assert(function_pieces(analysed.take(at + 1)) =~= function_pieces(analysed.take(at)).push(
            Piece::Function(fragment_view(function)),
        ));
        assert(pieces_of(fragments@) =~= data + function_pieces(analysed.take(at + 1)));
        assert(functions_fit(fragments@)) by {
            assert forall|i: int| 0 <= i < before.len() implies fragments@[i] == before[i] by {}
        }
    }
    assert(analysed.take(length) =~= analysed);
    Ok(fragments)
}

/// Whether a result is what the translation of a program gives once
/// the declarations of its types have entered the table: the
/// declarations of classes enter it, one after the other, and what is
/// wrong with them is the result; otherwise the program is analysed with
/// the classes that were declared, in the setting with the table and the
/// scopes that the declarations left.
pub open spec fn continued(
    program: Program,
    header: i64,
    table: Seq<Type>,
    scopes: Seq<Seq<Binding<TypeId>>>,
    used: nat,
    end: Setting,
    vars: Seq<Seq<Binding<Entry>>>,
    at: Counters,
    after: Counters,
    result: Result<Vec<Fragment>, Failure>,
) -> bool {
    exists|second: Result<Vec<TypeId>, Failure>| #[trigger]
        classes_declared(
            table,
            scopes,
            used,
            program.classes@,
            header,
            end.types@,
            end.named@,
            end.types.marks_used(),
            second,
        ) && match second {
            Err(failure) => result matches Err(found) && found == failure,
            Ok(classes) => assembled(
                program.main,
                end,
                program.sites as nat,
                program.literals@,
                classes@,
                vars,
                at,
                after,
                result,
            ),
        }
}

/// Whether a result is what the translation of a program gives. First
/// the declarations of types enter the table; what is wrong with them is
/// the result. Otherwise the translation goes on with the classes and
/// the functions.
pub open spec fn translated(
    program: Program,
    header: i64,
    start: Setting,
    end: Setting,
    vars: Seq<Seq<Binding<Entry>>>,
    at: Counters,
    after: Counters,
    result: Result<Vec<Fragment>, Failure>,
) -> bool {
    exists|
        table: Seq<Type>,
        scopes: Seq<Seq<Binding<TypeId>>>,
        used: nat,
        first: Result<(), Failure>,
    | #[trigger]
        types_declared(
            start.types@,
            start.named@,
            start.types.marks_used(),
            program.types@,
            header,
            table,
            scopes,
            used,
            first,
        ) && match first {
            Err(failure) => result matches Err(found) && found == failure,
            Ok(_) => continued(program, header, table, scopes, used, end, vars, at, after, result),
        }
}

/// Translates a program: the declarations of its types and classes
/// enter the table of types of the setting; the walk over the program
/// finds the variables that escape; the functions are analysed; and the
/// fragments are put together: the string literals, the tables of
/// methods of the classes, and the functions. `header` is the number of
/// bytes in front of the fields of a record or an object. The result is
/// the first thing that is wrong with the program, if anything is.
pub fn translate_program(
    program: &Program,
    header: i64,
    setting: &mut Setting,
    vars: &mut Symbols<Entry>,
    source: &mut TempSource,
) -> (result: Result<Vec<Fragment>, Failure>)
    requires
        old(setting).types.wf(),
    ensures
        final(vars)@ == old(vars)@,
        final(setting).builtins == old(setting).builtins,
        final(setting).names == old(setting).names,
        final(setting).receiver == old(setting).receiver,
        translated(
            *program,
            header,
            *old(setting),
            *final(setting),
            old(vars)@,
            counters_of(*old(source)),
            counters_of(*final(source)),
            result,
        ),
{
    let entered = declare_types(&mut setting.types, &mut setting.named, &program.types, header);
    let ghost table = setting.types@;
    let ghost scopes = setting.named@;
    let ghost used = setting.types.marks_used();
    match entered {
        Err(failure) => {
            assert(types_declared(
                old(setting).types@,
                old(setting).named@,
                old(setting).types.marks_used(),
                program.types@,
                header,
                table,
                scopes,
                used,
                entered,
            ));
            return Err(failure);
        },
        Ok(_) => {},
    }
    let declared = declare_classes(
        &mut setting.types,
        &mut setting.named,
        &program.classes,
        header,
    );
    let ghost places = declared;
    let classes = match declared {
        Err(failure) => {
            assert(classes_declared(
                table,
                scopes,
                used,
                program.classes@,
                header,
                setting.types@,
                setting.named@,
                setting.types.marks_used(),
                places,
            ));
            assert(continued(
                *program,
                header,
                table,
                scopes,
                used,
                *setting,
                old(vars)@,
                counters_of(*old(source)),
                counters_of(*source),
                Err::<Vec<Fragment>, Failure>(failure),
            ));
            return Err(failure);
        },
        Ok(classes) => classes,
    };
    let result = fragments_of(
        &program.main,
        program.sites,
        &program.literals,
        &classes,
        setting,
        vars,
        source,
    );
    assert(classes_declared(
        table,
        scopes,
        used,
        program.classes@,
        header,
        setting.types@,
        setting.named@,
        setting.types.marks_used(),
        places,
    ));
    assert(continued(
        *program,
        header,
        table,
        scopes,
        used,
        *setting,
        old(vars)@,
        counters_of(*old(source)),
        counters_of(*source),
        result,
    ));
    result
}

} // verus!
