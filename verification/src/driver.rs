//! What the driver hands to the assembler and the linker.

use vstd::prelude::*;

verus! {

/// The directory in which the libraries of the C compiler are looked for.
pub const GCC_DIRECTORY: &'static str = "/usr/lib64/gcc/x86_64-pc-linux-gnu/";

/// An entry of a directory: its name, if it is valid text, and whether it
/// is a directory itself.
#[derive(Clone, Debug, PartialEq, Eq)]
pub struct Entry {
    pub name: Option<String>,
    pub is_dir: bool,
}

/// Why no directory with the libraries of the C compiler was found.
#[derive(Clone, Copy, Debug, PartialEq, Eq, Structural)]
pub enum LibDirError {
    /// The name of the first directory is no valid text.
    InvalidData,
    /// There is no directory among the entries.
    NotFound,
}

/// The position of the first directory among the entries from `from` on.
pub open spec fn first_directory(entries: Seq<Entry>, from: int) -> Option<int>
    decreases entries.len() - from,
{
    if from < 0 || from >= entries.len() {
        None
    } else if entries[from].is_dir {
        Some(from)
    } else {
        first_directory(entries, from + 1)
    }
}

/// The path of the first directory among the entries, or why there is
/// none.
pub open spec fn lib_dir_of(directory: Seq<char>, entries: Seq<Entry>) -> Result<
    Seq<char>,
    LibDirError,
> {
    match first_directory(entries, 0) {
        Some(at) => match entries[at].name {
            Some(name) => Ok(directory + name@),
            None => Err(LibDirError::InvalidData),
        },
        None => Err(LibDirError::NotFound),
    }
}

/// Picks the directory with the libraries of the C compiler: the first
/// entry of `directory` that is a directory.
pub fn gcc_lib_dir(directory: &str, entries: &Vec<Entry>) -> (result: Result<String, LibDirError>)
    ensures
        match result {
            Ok(path) => lib_dir_of(directory@, entries@) == Ok::<Seq<char>, LibDirError>(path@),
            Err(error) => lib_dir_of(directory@, entries@) == Err::<Seq<char>, LibDirError>(error),
        },
{
    let mut index: usize = 0;
    while index < entries.len()
        invariant
            index <= entries.len(),
            first_directory(entries@, 0) == first_directory(entries@, index as int),
        decreases entries.len() - index,
    {
        if entries[index].is_dir {
            return match &entries[index].name {
                Some(name) => {
                    let mut path = String::new();
                    path.append(directory);
                    path.append(name.as_str());
                    assert(path@ =~= directory@ + name@);
                    Ok(path)
                },
                None => Err(LibDirError::InvalidData),
            };
        }
        index += 1;
    }
    Err(LibDirError::NotFound)
}

fn owned(literal: &str) -> (result: String)
    ensures
        result@ == literal@,
{
    let mut result = String::new();
    result.append(literal);
    assert(result@ =~= literal@);
    result
}

/// The texts of a list of strings.
pub open spec fn texts(strings: Seq<String>) -> Seq<Seq<char>> {
    strings.map_values(|string: String| string@)
}

/// The functions of the runtime that a program may call.
pub open spec fn runtime_function_names() -> Seq<Seq<char>> {
    seq![
        "allocRecord"@,
        "allocArray"@,
        "initArray"@,
        "stringEqual"@,
        "stringCompare"@,
        "print"@,
        "printi"@,
        "ord"@,
        "chr"@,
        "size"@,
        "substring"@,
        "concat"@,
        "not"@,
        "flush"@,
        "getChar"@,
        "exit"@,
    ]
}

/// The functions of the runtime that a program may call.
pub fn runtime_functions() -> (names: Vec<String>)
    ensures
        texts(names@) == runtime_function_names(),
{
    let mut names: Vec<String> = Vec::new();
    names.push(owned("allocRecord"));
    names.push(owned("allocArray"));
    names.push(owned("initArray"));
    names.push(owned("stringEqual"));
    names.push(owned("stringCompare"));
    names.push(owned("print"));
    names.push(owned("printi"));
    names.push(owned("ord"));
    names.push(owned("chr"));
    names.push(owned("size"));
    names.push(owned("substring"));
    names.push(owned("concat"));
    names.push(owned("not"));
    names.push(owned("flush"));
    names.push(owned("getChar"));
    names.push(owned("exit"));
    assert(texts(names@) =~= runtime_function_names());
    names
}

/// The arguments of the assembler for a listing.
pub open spec fn assembler_argument_texts(listing: Seq<char>) -> Seq<Seq<char>> {
    seq!["-f"@, "elf64"@, listing]
}

/// The arguments of the assembler for a listing.
pub fn assembler_arguments(listing: &str) -> (arguments: Vec<String>)
    ensures
        texts(arguments@) == assembler_argument_texts(listing@),
{
    let mut arguments: Vec<String> = Vec::new();
    arguments.push(owned("-f"));
    arguments.push(owned("elf64"));
    arguments.push(owned(listing));
    assert(texts(arguments@) =~= assembler_argument_texts(listing@));
    arguments
}

/// The arguments of the linker that make an executable of an object file,
/// the runtime and the C library.
pub open spec fn linker_argument_texts(
    executable: Seq<char>,
    object: Seq<char>,
    lib_dir: Seq<char>,
) -> Seq<Seq<char>> {
    seq![
        "-dynamic-linker"@,
        "/lib64/ld-linux-x86-64.so.2"@,
        "-o"@,
        executable,
        "/usr/lib/Scrt1.o"@,
        "/usr/lib/crti.o"@,
        "-L"@ + lib_dir,
        "-L/usr/lib64/"@,
        object,
        "target/debug/libruntime.a"@,
        "-lpthread"@,
        "-ldl"@,
        "--no-as-needed"@,
        "-lc"@,
        "-lgcc"@,
        "--as-needed"@,
        "-lgcc_s"@,
        "--no-as-needed"@,
        "/usr/lib/crtn.o"@,
    ]
}

/// The arguments of the linker that make an executable of an object file,
/// the runtime and the C library.
pub fn linker_arguments(executable: &str, object: &str, lib_dir: &str) -> (arguments: Vec<String>)
    ensures
        texts(arguments@) == linker_argument_texts(executable@, object@, lib_dir@),
{
    let mut search = String::new();
    search.append("-L");
    search.append(lib_dir);
    assert(search@ =~= "-L"@ + lib_dir@);
    let mut arguments: Vec<String> = Vec::new();
    arguments.push(owned("-dynamic-linker"));
    arguments.push(owned("/lib64/ld-linux-x86-64.so.2"));
    arguments.push(owned("-o"));
    arguments.push(owned(executable));
    arguments.push(owned("/usr/lib/Scrt1.o"));
    arguments.push(owned("/usr/lib/crti.o"));
    arguments.push(search);
    arguments.push(owned("-L/usr/lib64/"));
    arguments.push(owned(object));
    arguments.push(owned("target/debug/libruntime.a"));
    arguments.push(owned("-lpthread"));
    arguments.push(owned("-ldl"));
    arguments.push(owned("--no-as-needed"));
    arguments.push(owned("-lc"));
    arguments.push(owned("-lgcc"));
    arguments.push(owned("--as-needed"));
    arguments.push(owned("-lgcc_s"));
    arguments.push(owned("--no-as-needed"));
    arguments.push(owned("/usr/lib/crtn.o"));
    assert(texts(arguments@) =~= linker_argument_texts(executable@, object@, lib_dir@));
    arguments
}

} // verus!
