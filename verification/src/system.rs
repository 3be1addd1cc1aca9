//! What is read off the machine, and which programs are looked for on it.
use vstd::prelude::*;

use crate::config::Config;
use crate::disk::PathFact;
use crate::panel::local_size;
use crate::settings::{is_single_name, single_name};
use crate::text::{
    contains, last_position, occurs, rfind, same, split, split_on, texts, trim, trim_start_char,
    trim_start_matches, trimmed, Text,
};
use crate::paths::{below, join_path};

verus! {

broadcast use vstd::string::group_string_axioms;

/// What is known of the machine.
#[derive(Debug)]
pub struct Machine {
    pub total_memory_bytes: u64,
    pub available_memory_bytes: u64,
    pub cpu_name: String,
    pub logical_cpus: usize,
    pub physical_cpus: usize,
}

/// How much memory there is, and how large the model's files are, which are
/// mapped and need not be held.
#[derive(Clone, Copy, Debug, PartialEq, Eq, Structural)]
pub struct MemoryProfile {
    pub mapped_model_bytes: Option<u64>,
    pub available_bytes: u64,
    pub total_bytes: u64,
}

/// The name of the processor, from those of its cores.
pub open spec fn processor_name(brands: Seq<Text>) -> Text {
    if brands.len() > 0 && trimmed(brands[0]).len() > 0 {
        trimmed(brands[0])
    } else {
        "Unknown CPU"@
    }
}

impl Machine {
    /// What is known of a machine whose cores are called `brands`, and which
    /// may tell how many physical ones it has.
    pub fn detect(total: u64, available: u64, brands: &Vec<String>, physical: Option<usize>) -> (r:
        Machine)
        ensures
            r.total_memory_bytes == total,
            r.available_memory_bytes == available,
            r.cpu_name@ == processor_name(texts(brands@)),
            r.logical_cpus == (if brands@.len() == 0 {
                1
            } else {
                brands@.len()
            }),
            r.physical_cpus == (match physical {
                Some(n) if n > 0 => n,
                _ => r.logical_cpus,
            }),
    {
        let logical: usize = if brands.len() == 0 {
            1
        } else {
            brands.len()
        };
        let cores: usize = match physical {
            Some(n) if n > 0 => n,
            _ => logical,
        };
        let mut name: String = String::new();
        if brands.len() > 0 {
            proof {
                assert(texts(brands@)[0] == brands@[0]@);
            }
            name = trim(brands[0].as_str());
        }
        if name.as_str().unicode_len() == 0 {
            name = "Unknown CPU".to_owned();
        }
        Machine {
            total_memory_bytes: total,
            available_memory_bytes: available,
            cpu_name: name,
            logical_cpus: logical,
            physical_cpus: cores,
        }
    }

    /// The memory, and the size of the model that the settings name. `files`
    /// says of a local model's files which are there and how long they are.
    pub fn memory_profile(&self, config: &Config, files: &Vec<PathFact>) -> (r: MemoryProfile)
        ensures
            r.mapped_model_bytes == (match local_size(config@.model.source, files@) {
                Some(n) => Some(n),
                None => config@.model.estimated_bytes,
            }),
            r.available_bytes == self.available_memory_bytes,
            r.total_bytes == self.total_memory_bytes,
    {
        let mapped: Option<u64> = match config.local_model_bytes(files) {
            Some(n) => Some(n),
            None => config.model.estimated_bytes,
        };
        MemoryProfile {
            mapped_model_bytes: mapped,
            available_bytes: self.available_memory_bytes,
            total_bytes: self.total_memory_bytes,
        }
    }
}

/// Whether processor and graphics share one memory.
pub fn likely_unified_memory(os: &str, arch: &str) -> (r: bool)
    ensures
        r == (os@ == "macos"@ && arch@ == "aarch64"@),
{
    same(os, "macos") && same(arch, "aarch64")
}

/// How many threads the server gets: as many as there are physical cores,
/// where that is known, else as many as can run at once, and one at least.
pub fn recommended_threads(physical: Option<usize>, parallel: Option<usize>) -> (r: usize)
    ensures
        r == (match (physical, parallel) {
            (Some(n), _) if n > 0 => n,
            (_, Some(m)) if m > 0 => m,
            _ => 1,
        }),
        r >= 1,
{
    match physical {
        Some(n) if n > 0 => n,
        _ => match parallel {
            Some(m) if m > 0 => m,
            _ => 1,
        },
    }
}

/// Whether a program is looked for among the directories of programs.
pub open spec fn is_looked_up(path: Text, windows: bool) -> bool {
    (path.len() == 0 || single_name(path)) && !(windows && occurs(path, "\\"@))
}

/// Whether a file's name has an ending.
pub open spec fn has_ending(name: Text) -> bool {
    rfind(name, '.') matches Some(k) && k > 0
}

/// A name with each of the endings of programs.
pub open spec fn with_endings(name: Text, endings: Seq<Text>) -> Seq<Text>
    decreases endings.len(),
{
    if endings.len() == 0 {
        Seq::empty()
    } else {
        let before = with_endings(name, endings.drop_last());
        let e = trim_start_char(endings.last(), '.');
        if endings.last().len() == 0 {
            before
        } else if e.len() == 0 {
            before.push(name)
        } else {
            before.push(name + "."@ + e)
        }
    }
}

/// The names by which a program is looked for: on Windows one without an ending
/// gets those of programs.
pub open spec fn program_names(path: Text, windows: bool, endings: Text) -> Seq<Text> {
    if windows && !has_ending(path) {
        with_endings(path, split_on(endings, ';'))
    } else {
        seq![path]
    }
}

/// Names below a directory.
pub open spec fn all_below(dir: Text, names: Seq<Text>) -> Seq<Text> {
    names.map_values(|n: Text| below(dir, n))
}

/// Names below each of the directories.
pub open spec fn below_each(dirs: Seq<Text>, names: Seq<Text>) -> Seq<Text>
    decreases dirs.len(),
{
    if dirs.len() == 0 {
        Seq::empty()
    } else {
        below_each(dirs.drop_last(), names) + all_below(dirs.last(), names)
    }
}

/// The files of which one has to be a program for the program to be there.
pub open spec fn candidates(path: Text, dirs: Seq<Text>, windows: bool, endings: Text) -> Seq<Text> {
    if is_looked_up(path, windows) {
        below_each(dirs, program_names(path, windows, endings))
    } else {
        seq![path]
    }
}

fn end_names(name: &str, endings: &Vec<String>) -> (out: Vec<String>)
    ensures
        texts(out@) == with_endings(name@, texts(endings@)),
{
    let ghost all = texts(endings@);
    let mut out: Vec<String> = Vec::new();
    let mut i: usize = 0;
    proof {
        assert(texts(out@) =~= with_endings(name@, all.take(0)));
    }
    while i < endings.len()
        invariant
            i <= endings.len(),
            all == texts(endings@),
            texts(out@) == with_endings(name@, all.take(i as int)),
        decreases endings.len() - i,
    {
        let ghost was = texts(out@);
        proof {
            assert(all.take(i + 1).drop_last() =~= all.take(i as int));
            assert(all.take(i + 1).last() == endings@[i as int]@);
        }
        if endings[i].as_str().unicode_len() > 0 {
            let e = trim_start_matches(endings[i].as_str(), '.');
            let mut full = name.to_owned();
            if e.as_str().unicode_len() > 0 {
                full.append(".");
                full.append(e.as_str());
            }
            out.push(full);
            proof {
                assert(texts(out@) =~= was.push(full@));
            }
        }
        i = i + 1;
    }
    proof {
        assert(all.take(endings.len() as int) =~= all);
    }
    out
}

fn put_below(dirs: &Vec<String>, names: &Vec<String>) -> (out: Vec<String>)
    ensures
        texts(out@) == below_each(texts(dirs@), texts(names@)),
{
    let ghost all = texts(dirs@);
    let ghost wanted = texts(names@);
    let mut out: Vec<String> = Vec::new();
    let mut i: usize = 0;
    proof {
        assert(texts(out@) =~= below_each(all.take(0), wanted));
    }
    while i < dirs.len()
        invariant
            i <= dirs.len(),
            all == texts(dirs@),
            wanted == texts(names@),
            texts(out@) == below_each(all.take(i as int), wanted),
        decreases dirs.len() - i,
    {
        let ghost start = texts(out@);
        let ghost here = all_below(dirs@[i as int]@, wanted);
        proof {
            assert(all.take(i + 1).drop_last() =~= all.take(i as int));
            assert(all.take(i + 1).last() == dirs@[i as int]@);
            assert(start =~= start + here.take(0));
        }
        let mut k: usize = 0;
        while k < names.len()
            invariant
                i < dirs.len(),
                k <= names.len(),
                wanted == texts(names@),
                here == all_below(dirs@[i as int]@, wanted),
                texts(out@) == start + here.take(k as int),
            decreases names.len() - k,
        {
            let ghost was = texts(out@);
            let p = join_path(dirs[i].as_str(), names[k].as_str());
            out.push(p);
            proof {
                assert(wanted[k as int] == names@[k as int]@);
                assert(here[k as int] == p@);
                assert(texts(out@) =~= was.push(p@));
                assert(here.take(k + 1) =~= here.take(k as int).push(p@));
                assert(texts(out@) =~= start + here.take(k + 1));
            }
            k = k + 1;
        }
        proof {
            assert(here.take(names.len() as int) =~= here);
        }
        i = i + 1;
    }
    proof {
        assert(all.take(dirs.len() as int) =~= all);
    }
    out
}

/// The files of which one has to be a program for the program to be there:
/// itself where a path is given, and else one of its names in one of the
/// directories of programs.
pub fn executable_candidates(
    path: &str,
    dirs: &Vec<String>,
    windows: bool,
    endings: &str,
) -> (out: Vec<String>)
    ensures
        texts(out@) == candidates(path@, texts(dirs@), windows, endings@),
{
    let looked_up = (path.unicode_len() == 0 || is_single_name(path)) && !(windows && contains(
        path,
        "\\",
    ));
    if !looked_up {
        let out = vec![path.to_owned()];
        proof {
            assert(texts(out@) =~= seq![path@]);
        }
        return out;
    }
    let ended = match last_position(path, '.') {
        Some(k) => k > 0,
        None => false,
    };
    let names = if windows && !ended {
        end_names(path, &split(endings, ';'))
    } else {
        let one = vec![path.to_owned()];
        proof {
            assert(texts(one@) =~= seq![path@]);
        }
        one
    };
    put_below(dirs, &names)
}

/// Whether a file can be run; `mode` is what its owner and others may do, where
/// the system says so.
pub fn is_executable_file(is_file: bool, mode: Option<u32>) -> (r: bool)
    ensures
        r == (is_file && (mode matches Some(m) ==> m & 0o111 != 0)),
{
    is_file && (match mode {
        Some(m) => m & 0o111 != 0,
        None => true,
    })
}

/// A program and what it is called with.
#[derive(Debug)]
pub struct ProgramCall {
    pub program: String,
    pub arguments: Vec<String>,
}

/// The view of [`ProgramCall`].
#[verifier::ext_equal]
pub struct CallView {
    pub program: Text,
    pub arguments: Seq<Text>,
}

impl View for ProgramCall {
    type V = CallView;

    open spec fn view(&self) -> CallView {
        CallView { program: self.program@, arguments: texts(self.arguments@) }
    }
}

/// The views of calls.
pub open spec fn calls(v: Seq<ProgramCall>) -> Seq<CallView> {
    v.map_values(|c: ProgramCall| c@)
}

/// A call with no arguments or with two.
pub open spec fn call_of(program: Text, arguments: Seq<Text>) -> CallView {
    CallView { program, arguments }
}

/// The programs that take a text for the clipboard, in the order in which they
/// are tried.
pub open spec fn clipboard_calls(os: Text) -> Seq<CallView> {
    if os == "windows"@ {
        seq![call_of("clip.exe"@, Seq::empty())]
    } else if os == "macos"@ {
        seq![call_of("pbcopy"@, Seq::empty())]
    } else {
        seq![
            call_of("wl-copy"@, Seq::empty()),
            call_of("xclip"@, seq!["-selection"@, "clipboard"@]),
            call_of("xsel"@, seq!["--clipboard"@, "--input"@]),
        ]
    }
}

fn bare_call(program: &str) -> (c: ProgramCall)
    ensures
        c@ == call_of(program@, Seq::empty()),
{
    let c = ProgramCall { program: program.to_owned(), arguments: Vec::new() };
    proof {
        assert(c@.arguments =~= Seq::<Text>::empty());
    }
    c
}

fn call_with(program: &str, first: &str, second: &str) -> (c: ProgramCall)
    ensures
        c@ == call_of(program@, seq![first@, second@]),
{
    let c = ProgramCall {
        program: program.to_owned(),
        arguments: vec![first.to_owned(), second.to_owned()],
    };
    proof {
        assert(c@.arguments =~= seq![first@, second@]);
    }
    c
}

/// The programs that take a text for the clipboard.
pub fn clipboard_programs(os: &str) -> (out: Vec<ProgramCall>)
    ensures
        calls(out@) == clipboard_calls(os@),
{
    let out = if same(os, "windows") {
        vec![bare_call("clip.exe")]
    } else if same(os, "macos") {
        vec![bare_call("pbcopy")]
    } else {
        vec![
            bare_call("wl-copy"),
            call_with("xclip", "-selection", "clipboard"),
            call_with("xsel", "--clipboard", "--input"),
        ]
    };
    proof {
        assert(calls(out@) =~= clipboard_calls(os@));
    }
    out
}

/// What is told where no program took a text for the clipboard; `last` is why
/// the last one did not.
pub fn clipboard_failure(os: &str, last: &str) -> (out: String)
    ensures
        out@ == (if os@ == "windows"@ || os@ == "macos"@ {
            last@
        } else {
            "clipboard unavailable; install wl-copy, xclip, or xsel"@
        }),
{
    if same(os, "windows") || same(os, "macos") {
        last.to_owned()
    } else {
        "clipboard unavailable; install wl-copy, xclip, or xsel".to_owned()
    }
}

proof fn lemma_below_each(dirs: Seq<Text>, names: Seq<Text>, i: int, j: int)
    requires
        0 <= i < dirs.len(),
        0 <= j < names.len(),
    ensures
        below_each(dirs, names).contains(below(dirs[i], names[j])),
    decreases dirs.len(),
{
    let init = dirs.drop_last();
    let x = below(dirs[i], names[j]);
    crate::order::lemma_holds_both(below_each(init, names), all_below(dirs.last(), names), x);
    if i < init.len() {
        assert(init[i] == dirs[i]);
        lemma_below_each(init, names, i, j);
    } else {
        assert(all_below(dirs.last(), names)[j] == x);
    }
}

/// A program that is looked up is tried in every directory, under every name that
/// it can have; one with a path is tried there alone.
pub proof fn law_program_is_tried_everywhere(
    path: Text,
    dirs: Seq<Text>,
    windows: bool,
    endings: Text,
    i: int,
    j: int,
)
    requires
        0 <= i < dirs.len(),
        0 <= j < program_names(path, windows, endings).len(),
    ensures
        is_looked_up(path, windows) ==> candidates(path, dirs, windows, endings).contains(
            below(dirs[i], program_names(path, windows, endings)[j]),
        ),
        !is_looked_up(path, windows) ==> candidates(path, dirs, windows, endings) == seq![path],
        !windows ==> program_names(path, windows, endings) == seq![path],
{
    lemma_below_each(dirs, program_names(path, windows, endings), i, j);
}

/// The processor is called by the first name that is told, without white space
/// around it.
pub proof fn law_processor_has_its_name(name: Text, rest: Seq<Text>)
    requires
        name.len() > 0,
        !crate::text::is_space(name[0]),
        !crate::text::is_space(name.last()),
    ensures
        processor_name(seq![name] + rest) == name,
{
    assert(trimmed(name) == name);
    assert((seq![name] + rest)[0] == name);
}

} // verus!
