//! The context of a replayable run: the input lines supplied so far, how
//! many outputs the embedding has already shown, the random values drawn so
//! far, and the files, which live in memory.

use crate::errortype::{is_runtime_error, CPSError};
use crate::environment::is_error_text;
use crate::names::NameMap;
use crate::text::concat3;
use crate::value::{FileMode, Value, ValueV};
use vstd::prelude::*;

verus! {

/// A file that lives in memory.
#[derive(Debug)]
pub struct VirtualFile {
    /// Its lines: those written, or the contents loaded before a read.
    pub lines: Vec<String>,
    /// The next line that READFILE gives.
    pub read_pos: usize,
    /// How many lines this run has written; lines before it were written by
    /// an earlier run and are not written again.
    pub write_pos: usize,
    pub mode: FileMode,
    pub open: bool,
    /// The program wrote or appended to the file.
    pub was_written: bool,
}

/// The model of a file in memory.
pub struct VirtualFileView {
    pub lines: Seq<Seq<char>>,
    pub read_pos: usize,
    pub write_pos: usize,
    pub mode: FileMode,
    pub open: bool,
    pub was_written: bool,
}

impl View for VirtualFile {
    type V = VirtualFileView;

    open spec fn view(&self) -> VirtualFileView {
        VirtualFileView {
            lines: self.lines@.map_values(|s: String| s@),
            read_pos: self.read_pos,
            write_pos: self.write_pos,
            mode: self.mode,
            open: self.open,
            was_written: self.was_written,
        }
    }
}

/// What a run reads and replays.
#[derive(Debug)]
pub struct ReplayContext {
    pub inputs: Vec<String>,
    pub input_pos: usize,
    pub output_skip: usize,
    pub rand_log: Vec<Value>,
    pub rand_pos: usize,
    pub virtual_fs: NameMap<VirtualFile>,
}

/// The values of a log of random values.
pub open spec fn logged_values(log: Seq<Value>) -> Seq<ValueV> {
    log.map_values(|x: Value| x@)
}

/// The model of a file system in memory.
pub open spec fn fs_view(fs: NameMap<VirtualFile>) -> Map<Seq<char>, VirtualFileView> {
    fs@.map_values(|f: VirtualFile| f@)
}

/// The record of a file just opened for writing: empty.
pub open spec fn opened_for_write(f: Option<VirtualFileView>) -> VirtualFileView {
    VirtualFileView {
        lines: Seq::empty(),
        read_pos: 0,
        write_pos: 0,
        mode: FileMode::Write,
        open: true,
        was_written: match f {
            Some(g) => g.was_written,
            None => false,
        },
    }
}

/// The record of a file just opened for appending: its lines are kept and
/// this run's writes start over them.
pub open spec fn opened_for_append(f: Option<VirtualFileView>) -> VirtualFileView {
    match f {
        Some(g) => VirtualFileView { mode: FileMode::Append, write_pos: 0, open: true, ..g },
        None => VirtualFileView {
            lines: Seq::empty(),
            read_pos: 0,
            write_pos: 0,
            mode: FileMode::Append,
            open: true,
            was_written: false,
        },
    }
}

/// The record of a file after a line is written: a line that an earlier run
/// wrote is passed over, and a new line is added at the end.
pub open spec fn after_write(f: VirtualFileView, line: Seq<char>) -> VirtualFileView {
    if f.write_pos < f.lines.len() {
        VirtualFileView { was_written: true, write_pos: (f.write_pos + 1) as usize, ..f }
    } else {
        VirtualFileView { was_written: true, write_pos: (f.write_pos + 1) as usize, lines: f.lines.push(line), ..f }
    }
}

/// The parts of the context other than the files are the same.
pub open spec fn same_but_files(a: ReplayContext, b: ReplayContext) -> bool {
    &&& b.inputs == a.inputs
    &&& b.input_pos == a.input_pos
    &&& b.output_skip == a.output_skip
    &&& b.rand_log == a.rand_log
    &&& b.rand_pos == a.rand_pos
}

/// The record of file `name`, if there is one.
pub open spec fn file_record(fs: Map<Seq<char>, VirtualFileView>, name: Seq<char>) -> Option<VirtualFileView> {
    if fs.contains_key(name) {
        Some(fs[name])
    } else {
        None
    }
}

/// What OPENFILE does to the files in memory, from context `a` to `b`.
pub open spec fn open_outcome(a: ReplayContext, b: ReplayContext, name: Seq<char>, mode: FileMode, r: Result<(), CPSError>) -> bool {
    let fs = fs_view(a.virtual_fs);
    let cur = file_record(fs, name);
    &&& same_but_files(a, b)
    &&& match mode {
        FileMode::Write => r is Ok && fs_view(b.virtual_fs) == fs.insert(name, opened_for_write(cur)),
        FileMode::Append => r is Ok && fs_view(b.virtual_fs) == fs.insert(name, opened_for_append(cur)),
        FileMode::Read => match cur {
            Some(f) => r is Ok && fs_view(b.virtual_fs) == fs.insert(
                name,
                VirtualFileView { mode: FileMode::Read, read_pos: 0, open: true, ..f },
            ),
            None => (r matches Err(e) && is_runtime_error(
                e,
                "File '"@ + name + "' not found; it must be preloaded before opening for read"@,
            ) && e.hint is None) && fs_view(b.virtual_fs) == fs,
        },
    }
}

/// What CLOSEFILE does to the files in memory: the file stays, marked closed.
pub open spec fn close_outcome(a: ReplayContext, b: ReplayContext, name: Seq<char>, r: Result<(), CPSError>) -> bool {
    let fs = fs_view(a.virtual_fs);
    &&& same_but_files(a, b)
    &&& if fs.contains_key(name) {
        r is Ok && fs_view(b.virtual_fs) == fs.insert(name, VirtualFileView { open: false, ..fs[name] })
    } else {
        (r matches Err(e) && is_runtime_error(e, "Cannot close file '"@ + name + "': file is not open"@) && e.hint is None)
            && fs_view(b.virtual_fs) == fs
    }
}

/// What WRITEFILE of `line` does to the files in memory (see `after_write`).
pub open spec fn write_outcome(a: ReplayContext, b: ReplayContext, name: Seq<char>, line: Seq<char>, r: Result<(), CPSError>) -> bool {
    let fs = fs_view(a.virtual_fs);
    &&& same_but_files(a, b)
    &&& if !fs.contains_key(name) {
        (r matches Err(e) && is_runtime_error(e, "File '"@ + name + "' is not open"@) && e.hint is None) && fs_view(
            b.virtual_fs,
        ) == fs
    } else if fs[name].mode == FileMode::Read {
        (r matches Err(e) && is_runtime_error(e, "Cannot write to file '"@ + name + "': file is opened in read mode"@)
            && e.hint is None) && fs_view(b.virtual_fs) == fs
    } else {
        r is Ok && fs_view(b.virtual_fs) == fs.insert(name, after_write(fs[name], line))
    }
}

/// What READFILE does to the files in memory: the next line of a file open
/// for reading.
pub open spec fn read_outcome(a: ReplayContext, b: ReplayContext, name: Seq<char>, r: Result<String, CPSError>) -> bool {
    let fs = fs_view(a.virtual_fs);
    &&& same_but_files(a, b)
    &&& if !fs.contains_key(name) {
        (r matches Err(e) && is_runtime_error(e, "File '"@ + name + "' is not open"@) && e.hint is None) && fs_view(
            b.virtual_fs,
        ) == fs
    } else if fs[name].mode != FileMode::Read {
        (r matches Err(e) && is_runtime_error(e, "Cannot read from file '"@ + name + "': file is not opened in read mode"@)
            && e.hint is None) && fs_view(b.virtual_fs) == fs
    } else if fs[name].read_pos >= fs[name].lines.len() {
        (r matches Err(e) && is_error_text(
            e,
            ("Cannot read past end of file '"@ + name + "'"@, Some("Check EOF before reading"@)),
        )) && fs_view(b.virtual_fs) == fs
    } else {
        (r matches Ok(l) && l@ == fs[name].lines[fs[name].read_pos as int]) && fs_view(b.virtual_fs) == fs.insert(
            name,
            VirtualFileView { read_pos: (fs[name].read_pos + 1) as usize, ..fs[name] },
        )
    }
}

impl ReplayContext {
    /// The files are a well-formed name map, and no file's write position
    /// can overflow.
    pub open spec fn wf(&self) -> bool {
        &&& self.virtual_fs.wf()
        &&& forall|k: Seq<char>| #[trigger] fs_view(self.virtual_fs).contains_key(k) ==> fs_view(self.virtual_fs)[k].write_pos
            <= fs_view(self.virtual_fs)[k].lines.len()
    }

    /// A context with these input lines, nothing shown or drawn yet, and no files.
    pub fn new(inputs: Vec<String>) -> (c: ReplayContext)
        ensures
            c.wf(),
            c.inputs == inputs,
            c.input_pos == 0,
            c.output_skip == 0,
            c.rand_log@.len() == 0,
            c.rand_pos == 0,
            fs_view(c.virtual_fs) == Map::<Seq<char>, VirtualFileView>::empty(),
    {
        let c = ReplayContext {
            inputs,
            input_pos: 0,
            output_skip: 0,
            rand_log: Vec::new(),
            rand_pos: 0,
            virtual_fs: NameMap::new(),
        };
        assert(fs_view(c.virtual_fs) =~= Map::<Seq<char>, VirtualFileView>::empty());
        c
    }

    /// Hands an output line on: an output the embedding already showed is
    /// passed over; otherwise the run stops with it.
    pub fn emit_output(&mut self, output: String) -> (r: Result<(), CPSError>)
        ensures
            old(self).output_skip > 0 ==> r is Ok && *final(self) == (ReplayContext {
                output_skip: (old(self).output_skip - 1) as usize,
                ..*old(self)
            }),
            old(self).output_skip == 0 ==> (r matches Err(e) && (e.error_type matches crate::errortype::ErrorType::StepOutput(o)
                && o@ == output@)) && *final(self) == *old(self),
    {
        if self.output_skip > 0 {
            self.output_skip = self.output_skip - 1;
            return Ok(());
        }
        Err(CPSError::step_output(output))
    }

    /// The next input line; when none is left, the run stops and asks for
    /// one for `variable_name`.
    pub fn read_input(&mut self, variable_name: &str) -> (r: Result<String, CPSError>)
        ensures
            old(self).input_pos < old(self).inputs@.len() ==> (r matches Ok(s) && s == old(self).inputs@[old(self).input_pos as int])
                && *final(self) == (ReplayContext { input_pos: (old(self).input_pos + 1) as usize, ..*old(self) }),
            old(self).input_pos >= old(self).inputs@.len() ==> (r matches Err(e) && (
            e.error_type matches crate::errortype::ErrorType::StepNeedsInput(v) && v@ == variable_name@)) && *final(self)
                == *old(self),
    {
        if self.input_pos < self.inputs.len() {
            let input = self.inputs[self.input_pos].clone();
            self.input_pos = self.input_pos + 1;
            return Ok(input);
        }
        Err(CPSError::step_needs_input(String::from_str(variable_name)))
    }

    /// The random value that an earlier run drew at this point, if any.
    pub fn next_logged_rand(&mut self) -> (r: Option<Value>)
        ensures
            old(self).rand_pos < old(self).rand_log@.len() ==> (r matches Some(v) && v@ == old(self).rand_log@[old(self).rand_pos as int]@)
                && *final(self) == (ReplayContext { rand_pos: (old(self).rand_pos + 1) as usize, ..*old(self) }),
            old(self).rand_pos >= old(self).rand_log@.len() ==> r is None && *final(self) == *old(self),
    {
        if self.rand_pos < self.rand_log.len() {
            let v = self.rand_log[self.rand_pos].duplicate();
            self.rand_pos = self.rand_pos + 1;
            return Some(v);
        }
        None
    }

    /// Records a random value drawn by this run.
    pub fn log_rand(&mut self, value: Value)
        ensures
            final(self).rand_log@ == old(self).rand_log@.push(value),
            final(self).rand_pos == (if old(self).rand_pos == usize::MAX {
                usize::MAX
            } else {
                (old(self).rand_pos + 1) as usize
            }),
            final(self).inputs == old(self).inputs,
            final(self).input_pos == old(self).input_pos,
            final(self).output_skip == old(self).output_skip,
            final(self).virtual_fs == old(self).virtual_fs,
    {
        self.rand_log.push(value);
        self.rand_pos = self.rand_pos.saturating_add(1);
    }

    /// Makes `lines` the contents of file `name`, before a run reads it.
    pub fn preload_file(&mut self, name: String, lines: Vec<String>)
        requires
            old(self).wf(),
        ensures
            final(self).wf(),
            fs_view(final(self).virtual_fs) == fs_view(old(self).virtual_fs).insert(
                name@,
                VirtualFileView {
                    lines: lines@.map_values(|s: String| s@),
                    read_pos: 0,
                    write_pos: 0,
                    mode: FileMode::Read,
                    open: false,
                    was_written: false,
                },
            ),
    {
        let ghost nv = name@;
        let n = lines.len();
        let f = VirtualFile { lines, read_pos: 0, write_pos: 0, mode: FileMode::Read, open: false, was_written: false };
        let ghost fv = f@;
        self.virtual_fs.insert(name, f);
        proof {
            assert(fs_view(self.virtual_fs) =~= fs_view(old(self).virtual_fs).insert(nv, fv));
        }
    }

    /// OPENFILE on the files in memory. Writing starts the file afresh;
    /// appending keeps its lines; reading needs the file to exist.
    pub fn open_file(&mut self, filename: String, mode: FileMode) -> (r: Result<(), CPSError>)
        requires
            old(self).wf(),
        ensures
            final(self).wf(),
            open_outcome(*old(self), *final(self), filename@, mode, r),
    {
        let ghost fs = fs_view(self.virtual_fs);
        let ghost nv = filename@;
        let existing = self.virtual_fs.remove(&filename);
        let ghost cur = if fs.contains_key(nv) { Some(fs[nv]) } else { None };
        proof {
            assert(match existing {
                Some(f) => cur == Some(f@),
                None => cur is None,
            });
        }
        let f = match mode {
            FileMode::Write => {
                let was = match &existing {
                    Some(g) => g.was_written,
                    None => false,
                };
                VirtualFile { lines: Vec::new(), read_pos: 0, write_pos: 0, mode: FileMode::Write, open: true, was_written: was }
            },
            FileMode::Append => match existing {
                Some(g) => VirtualFile { mode: FileMode::Append, write_pos: 0, open: true, ..g },
                None => VirtualFile {
                    lines: Vec::new(),
                    read_pos: 0,
                    write_pos: 0,
                    mode: FileMode::Append,
                    open: true,
                    was_written: false,
                },
            },
            FileMode::Read => match existing {
                Some(g) => VirtualFile { mode: FileMode::Read, read_pos: 0, open: true, ..g },
                None => {
                    proof {
                        assert(fs_view(self.virtual_fs) =~= fs);
                    }
                    let msg = concat3("File '", filename.as_str(), "' not found; it must be preloaded before opening for read");
                    return Err(CPSError::runtime(msg));
                },
            },
        };
        let ghost fv = f@;
        self.virtual_fs.insert(filename, f);
        proof {
            assert(fs_view(self.virtual_fs) =~= fs.insert(nv, fv));
            if mode == FileMode::Write {
                assert(fv.lines =~= Seq::<Seq<char>>::empty());
                assert(fv == opened_for_write(cur));
            } else if mode == FileMode::Append {
                if cur is None {
                    assert(fv.lines =~= Seq::<Seq<char>>::empty());
                }
                assert(fv == opened_for_append(cur));
            }
        }
        Ok(())
    }

    /// CLOSEFILE on the files in memory: the file stays, marked closed.
    pub fn close_file(&mut self, filename: &String) -> (r: Result<(), CPSError>)
        requires
            old(self).wf(),
        ensures
            final(self).wf(),
            close_outcome(*old(self), *final(self), filename@, r),
    {
        let ghost fs = fs_view(self.virtual_fs);
        match self.virtual_fs.remove(filename) {
            Some(mut f) => {
                let ghost before = f@;
                f.open = false;
                let ghost fv = f@;
                self.virtual_fs.insert(filename.clone(), f);
                proof {
                    assert(fv == VirtualFileView { open: false, ..before });
                    assert(fs_view(self.virtual_fs) =~= fs.insert(filename@, fv));
                }
                Ok(())
            },
            None => {
                proof {
                    assert(fs_view(self.virtual_fs) =~= fs);
                }
                Err(CPSError::runtime(concat3("Cannot close file '", filename.as_str(), "': file is not open")))
            },
        }
    }

    /// WRITEFILE on the files in memory (see `after_write`).
    pub fn write_line(&mut self, filename: &String, line: String) -> (r: Result<(), CPSError>)
        requires
            old(self).wf(),
        ensures
            final(self).wf(),
            write_outcome(*old(self), *final(self), filename@, line@, r),
    {
        let ghost fs = fs_view(self.virtual_fs);
        match self.virtual_fs.remove(filename) {
            Some(mut f) => {
                let ghost before = f@;
                if f.mode == FileMode::Read {
                    self.virtual_fs.insert(filename.clone(), f);
                    proof {
                        assert(fs_view(self.virtual_fs) =~= fs);
                    }
                    return Err(CPSError::runtime(concat3("Cannot write to file '", filename.as_str(), "': file is opened in read mode")));
                }
                let ghost lv = line@;
                assert(fs.contains_key(filename@));
                assert(before == fs[filename@]);
                assert(f.write_pos <= f.lines@.len());
                f.was_written = true;
                if f.write_pos < f.lines.len() {
                    f.write_pos = f.write_pos + 1;
                } else {
                    f.lines.push(line);
                    let n = f.lines.len();
                    assert(f.write_pos < n);
                    f.write_pos = f.write_pos + 1;
                }
                let ghost fv = f@;
                self.virtual_fs.insert(filename.clone(), f);
                proof {
                    assert(fv.lines =~= after_write(before, lv).lines);
                    assert(fv == after_write(before, lv));
                    assert(fs_view(self.virtual_fs) =~= fs.insert(filename@, fv));
                }
                Ok(())
            },
            None => {
                proof {
                    assert(fs_view(self.virtual_fs) =~= fs);
                }
                Err(CPSError::runtime(concat3("File '", filename.as_str(), "' is not open")))
            },
        }
    }

    /// READFILE on the files in memory: the next line of a file open for reading.
    pub fn read_line(&mut self, filename: &String) -> (r: Result<String, CPSError>)
        requires
            old(self).wf(),
        ensures
            final(self).wf(),
            read_outcome(*old(self), *final(self), filename@, r),
    {
        let ghost fs = fs_view(self.virtual_fs);
        match self.virtual_fs.remove(filename) {
            Some(mut f) => {
                let ghost before = f@;
                if f.mode != FileMode::Read {
                    self.virtual_fs.insert(filename.clone(), f);
                    proof {
                        assert(fs_view(self.virtual_fs) =~= fs);
                    }
                    return Err(CPSError::runtime(concat3("Cannot read from file '", filename.as_str(), "': file is not opened in read mode")));
                }
                if f.read_pos >= f.lines.len() {
                    self.virtual_fs.insert(filename.clone(), f);
                    proof {
                        assert(fs_view(self.virtual_fs) =~= fs);
                    }
                    return Err(
                        CPSError::runtime_with_hint(
                            concat3("Cannot read past end of file '", filename.as_str(), "'"),
                            String::from_str("Check EOF before reading"),
                        ),
                    );
                }
                let line = f.lines[f.read_pos].clone();
                f.read_pos = f.read_pos + 1;
                let ghost fv = f@;
                self.virtual_fs.insert(filename.clone(), f);
                proof {
                    assert(fv == VirtualFileView { read_pos: (before.read_pos + 1) as usize, ..before });
                    assert(fs_view(self.virtual_fs) =~= fs.insert(filename@, fv));
                }
                Ok(line)
            },
            None => {
                proof {
                    assert(fs_view(self.virtual_fs) =~= fs);
                }
                Err(CPSError::runtime(concat3("File '", filename.as_str(), "' is not open")))
            },
        }
    }

    /// EOF on the files in memory: the file has no line left to read.
    pub fn at_end(&self, filename: &String) -> (r: Result<bool, CPSError>)
        requires
            self.wf(),
        ensures
            ({
                let fs = fs_view(self.virtual_fs);
                if fs.contains_key(filename@) {
                    r == Ok::<bool, CPSError>(fs[filename@].read_pos >= fs[filename@].lines.len())
                } else {
                    r matches Err(e) && is_error_text(
                        e,
                        ("File '"@ + filename@ + "' is not open"@, Some("Make sure to open the file before checking EOF"@)),
                    )
                }
            }),
    {
        match self.virtual_fs.get(filename) {
            Some(f) => Ok(f.read_pos >= f.lines.len()),
            None => Err(
                CPSError::runtime_with_hint(
                    concat3("File '", filename.as_str(), "' is not open"),
                    String::from_str("Make sure to open the file before checking EOF"),
                ),
            ),
        }
    }
}

} // verus!
