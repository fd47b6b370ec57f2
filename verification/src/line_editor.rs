//! The line editor core: an in-memory line buffer with insertion,
//! appending, range printing, substring search and a parsed command
//! language. Reading the keyboard and touching the file live outside the
//! library; the buffer operations take and return plain values.

use vstd::prelude::*;
use vstd::string::*;
use crate::text::{contains_spec, digits_value, parse_usize, parses_as_usize, str_contains,
    str_eq, tokenize, tokens, views_of};

verus! {

/// The editor's failure modes.
#[derive(Debug)]
pub enum ErrorType {
    TypeErr,
    RangeError,
    WriteErr(String),
    FileEmpty,
    CmdErr,
    ArgCountErr,
}

/// Holds the path of the file the buffer belongs to; all file traffic
/// happens outside the library.
pub struct FileGod {
    file_path: String,
}

impl View for FileGod {
    type V = Seq<char>;

    closed spec fn view(&self) -> Seq<char> {
        self.file_path@
    }
}

impl FileGod {
    pub fn new(file_path: String) -> (f: Self)
        ensures
            f@ == file_path@,
    {
        Self { file_path }
    }

    /// The stored path.
    pub fn path(&self) -> (p: &String)
        ensures
            p@ == self@,
    {
        &self.file_path
    }
}

/// The lines of `ls` that contain `needle`, in order.
pub open spec fn matching_lines(ls: Seq<Seq<char>>, needle: Seq<char>) -> Seq<Seq<char>>
    decreases ls.len(),
{
    if ls.len() == 0 {
        Seq::<Seq<char>>::empty()
    } else {
        let rest = matching_lines(ls.drop_last(), needle);
        if contains_spec(ls.last(), needle) {
            rest.push(ls.last())
        } else {
            rest
        }
    }
}

/// The newline-joined concatenation of a sequence of lines.
pub open spec fn join_lines(ls: Seq<Seq<char>>) -> Seq<char>
    decreases ls.len(),
{
    if ls.len() == 0 {
        Seq::<char>::empty()
    } else if ls.len() == 1 {
        ls[0]
    } else {
        join_lines(ls.drop_last()) + seq!['\n'] + ls.last()
    }
}

/// The in-memory line buffer.
pub struct LineGod {
    lines: Vec<String>,
}

impl View for LineGod {
    type V = Seq<Seq<char>>;

    closed spec fn view(&self) -> Seq<Seq<char>> {
        views_of(self.lines@)
    }
}

/// The insertion point an optional index denotes: the start by default.
pub open spec fn insert_index(index: Option<usize>) -> usize {
    match index {
        Some(i) => i,
        None => 0,
    }
}

impl LineGod {
    pub fn new(lines: Vec<String>) -> (g: Self)
        ensures
            g@ == views_of(lines@),
    {
        Self { lines }
    }

    /// The current buffer contents.
    pub fn fetch_all(&self) -> (ls: &Vec<String>)
        ensures
            views_of(ls@) == self@,
    {
        &self.lines
    }

    /// Inserts the given lines before position `index` (before the first
    /// line by default); an index past the end is a range error and
    /// leaves the buffer unchanged.
    pub fn insert(&mut self, index: Option<usize>, new_lines: Vec<String>) -> (r: Result<
        (),
        ErrorType,
    >)
        ensures
            ({
                let idx = insert_index(index) as int;
                match r {
                    Ok(()) => idx <= old(self)@.len() && final(self)@ == old(self)@.take(idx)
                        + views_of(new_lines@) + old(self)@.skip(idx),
                    Err(e) => idx > old(self)@.len() && e is RangeError && final(self)@ == old(
                        self,
                    )@,
                }
            }),
    {
        let idx = match index {
            Some(i) => i,
            None => 0,
        };
        if idx > self.lines.len() {
            return Err(ErrorType::RangeError);
        }
        let mut result: Vec<String> = Vec::new();
        let mut i: usize = 0;
        while i < idx
            invariant
                i <= idx <= self.lines@.len(),
                self@ == old(self)@,
                views_of(result@) == self@.take(i as int),
            decreases idx - i,
        {
            let ghost pre = views_of(result@);
            result.push(self.lines[i].clone());
            proof {
                assert(views_of(result@) =~= pre.push(self@[i as int]));
                assert(self@.take(i + 1) =~= self@.take(i as int).push(self@[i as int]));
            }
            i += 1;
        }
        let mut j: usize = 0;
        let n_new = new_lines.len();
        while j < n_new
            invariant
                j <= n_new,
                n_new == new_lines@.len(),
                idx <= self.lines@.len(),
                self@ == old(self)@,
                views_of(result@) == self@.take(idx as int) + views_of(new_lines@).take(j as int),
            decreases n_new - j,
        {
            let ghost pre = views_of(result@);
            result.push(new_lines[j].clone());
            proof {
                assert(views_of(result@) =~= pre.push(views_of(new_lines@)[j as int]));
                assert(views_of(new_lines@).take(j + 1) =~= views_of(new_lines@).take(
                    j as int,
                ).push(views_of(new_lines@)[j as int]));
                assert(self@.take(idx as int) + views_of(new_lines@).take(j + 1) =~= (self@.take(
                    idx as int,
                ) + views_of(new_lines@).take(j as int)).push(views_of(new_lines@)[j as int]));
            }
            j += 1;
        }
        let mut k: usize = idx;
        let n_old = self.lines.len();
        proof {
            assert(views_of(new_lines@).take(n_new as int) =~= views_of(new_lines@));
        }
        while k < n_old
            invariant
                idx <= k <= n_old,
                n_old == self.lines@.len(),
                self@ == old(self)@,
                views_of(result@) == self@.take(idx as int) + views_of(new_lines@) + self@.subrange(
                    idx as int,
                    k as int,
                ),
            decreases n_old - k,
        {
            let ghost pre = views_of(result@);
            result.push(self.lines[k].clone());
            proof {
                assert(views_of(result@) =~= pre.push(self@[k as int]));
                assert(self@.subrange(idx as int, k + 1) =~= self@.subrange(
                    idx as int,
                    k as int,
                ).push(self@[k as int]));
                assert(self@.take(idx as int) + views_of(new_lines@) + self@.subrange(
                    idx as int,
                    k + 1,
                ) =~= (self@.take(idx as int) + views_of(new_lines@) + self@.subrange(
                    idx as int,
                    k as int,
                )).push(self@[k as int]));
            }
            k += 1;
        }
        proof {
            assert(old(self)@.subrange(idx as int, n_old as int) =~= old(self)@.skip(idx as int));
        }
        self.lines = result;
        Ok(())
    }

    /// Appends the given lines at the end of the buffer.
    pub fn append(&mut self, new_lines: Vec<String>) -> (r: Result<(), ErrorType>)
        ensures
            r is Ok,
            final(self)@ == old(self)@ + views_of(new_lines@),
    {
        let mut j: usize = 0;
        let n_new = new_lines.len();
        proof {
            assert(old(self)@ + views_of(new_lines@).take(0) =~= old(self)@);
        }
        while j < n_new
            invariant
                j <= n_new,
                n_new == new_lines@.len(),
                self@ == old(self)@ + views_of(new_lines@).take(j as int),
            decreases n_new - j,
        {
            let ghost pre = self@;
            self.lines.push(new_lines[j].clone());
            proof {
                assert(self@ =~= pre.push(views_of(new_lines@)[j as int]));
                assert(views_of(new_lines@).take(j + 1) =~= views_of(new_lines@).take(
                    j as int,
                ).push(views_of(new_lines@)[j as int]));
                assert(old(self)@ + views_of(new_lines@).take(j + 1) =~= (old(self)@ + views_of(
                    new_lines@,
                ).take(j as int)).push(views_of(new_lines@)[j as int]));
            }
            j += 1;
        }
        proof {
            assert(views_of(new_lines@).take(n_new as int) =~= views_of(new_lines@));
        }
        Ok(())
    }

    /// The lines of the given range (the whole buffer by default),
    /// joined with newlines. An empty buffer is an error, as is a
    /// decreasing or out-of-bounds range.
    pub fn fetch_lines(&self, range: Option<(usize, usize)>) -> (r: Result<
        Option<String>,
        ErrorType,
    >)
        ensures
            self@.len() == 0 ==> (r matches Err(e) && e is FileEmpty),
            ({
                let se = match range {
                    Some(p) => p,
                    None => (0usize, (self@.len() - 1) as usize),
                };
                &&& (self@.len() > 0 && (se.0 > se.1 || se.1 >= self@.len()) ==> (r matches Err(e)
                    && e is RangeError))
                &&& (self@.len() > 0 && se.0 <= se.1 < self@.len() ==> (r matches Ok(s)
                    && s matches Some(out) && out@ == join_lines(
                    self@.subrange(se.0 as int, se.1 + 1),
                )))
            }),
    {
        if self.lines.len() == 0 {
            return Err(ErrorType::FileEmpty);
        }
        let (start, end) = match range {
            Some(p) => p,
            None => (0, self.lines.len() - 1),
        };
        if start > end || end >= self.lines.len() {
            return Err(ErrorType::RangeError);
        }
        let n = self.lines.len();
        let mut out = String::from_str(self.lines[start].as_str());
        proof {
            assert(self@.subrange(start as int, start + 1) =~= seq![self@[start as int]]);
            assert(join_lines(seq![self@[start as int]]) == self@[start as int]);
        }
        let mut i: usize = start + 1;
        while i <= end
            invariant
                start < i <= end + 1,
                end < n,
                n == self@.len(),
                out@ == join_lines(self@.subrange(start as int, i as int)),
            decreases end + 1 - i,
        {
            out.append("\n");
            out.append(self.lines[i].as_str());
            proof {
                reveal_strlit("\n");
                assert("\n"@ =~= seq!['\n']);
                let sub = self@.subrange(start as int, i + 1);
                assert(sub.drop_last() =~= self@.subrange(start as int, i as int));
                assert(sub.last() == self@[i as int]);
                assert(out@ =~= join_lines(self@.subrange(start as int, i as int)) + seq!['\n']
                    + self@[i as int]);
            }
            i += 1;
        }
        Ok(Some(out))
    }

    /// Every line containing `needle`, in order, joined with newlines.
    pub fn find(&self, needle: &str) -> (r: Result<Option<String>, ErrorType>)
        ensures
            r matches Ok(s) && s matches Some(out) && out@ == join_lines(
                matching_lines(self@, needle@),
            ),
    {
        let mut matching: Vec<String> = Vec::new();
        let n = self.lines.len();
        let mut i: usize = 0;
        proof {
            assert(views_of(matching@) =~= Seq::<Seq<char>>::empty());
        }
        while i < n
            invariant
                i <= n,
                n == self@.len(),
                views_of(matching@) == matching_lines(self@.take(i as int), needle@),
            decreases n - i,
        {
            proof {
                assert(self@.take(i + 1).drop_last() =~= self@.take(i as int));
                assert(self@.take(i + 1).last() == self@[i as int]);
            }
            if str_contains(self.lines[i].as_str(), needle) {
                let ghost pre = views_of(matching@);
                matching.push(self.lines[i].clone());
                proof {
                    assert(views_of(matching@) =~= pre.push(self@[i as int]));
                }
            }
            i += 1;
        }
        proof {
            assert(self@.take(n as int) =~= self@);
        }
        let g = LineGod { lines: matching };
        let joined = match g.fetch_lines(None) {
            Ok(Some(s)) => s,
            _ => String::new(),
        };
        proof {
            if g@.len() == 0 {
                assert(join_lines(g@) =~= Seq::<char>::empty());
            } else {
                assert(g@.subrange(0, (g@.len() - 1) + 1) =~= g@);
            }
        }
        Ok(Some(joined))
    }
}

/// An editing session: the buffer and the file it belongs to. The
/// interactive loop that drives a session — reading commands and input
/// lines, writing the file — lives outside the library and works
/// through these two parts.
pub struct TextEditor {
    pub file_god: FileGod,
    pub line_god: LineGod,
}

/// The editor's command language.
#[derive(Debug)]
pub enum Command {
    Insert(Option<usize>),
    Append,
    Print(usize, usize),
    Find(String),
    Save,
    Quit,
}

impl View for Command {
    type V = CommandModel;

    open spec fn view(&self) -> CommandModel {
        match self {
            Command::Insert(i) => CommandModel::Insert(*i),
            Command::Append => CommandModel::Append,
            Command::Print(a, b) => CommandModel::Print(*a, *b),
            Command::Find(s) => CommandModel::Find(s@),
            Command::Save => CommandModel::Save,
            Command::Quit => CommandModel::Quit,
        }
    }
}

/// Model of a parsed command.
#[verifier::ext_equal]
pub ghost enum CommandModel {
    Insert(Option<usize>),
    Append,
    Print(usize, usize),
    Find(Seq<char>),
    Save,
    Quit,
}

/// What a command line means: the one-letter command and its arguments.
/// `i` takes an optional insertion index (ignored when unreadable), `p`
/// two mandatory numbers, `f` a mandatory search string.
pub open spec fn spec_parse_command(input: Seq<char>) -> Result<CommandModel, ErrorType> {
    let toks = tokens(input);
    if toks.len() == 0 {
        Err(ErrorType::CmdErr)
    } else if toks[0] == "i"@ {
        Ok(
            CommandModel::Insert(
                if toks.len() >= 2 && parses_as_usize(toks[1]) {
                    Some(digits_value(toks[1]) as usize)
                } else {
                    None
                },
            ),
        )
    } else if toks[0] == "a"@ {
        Ok(CommandModel::Append)
    } else if toks[0] == "p"@ {
        if toks.len() < 2 {
            Err(ErrorType::ArgCountErr)
        } else if !parses_as_usize(toks[1]) {
            Err(ErrorType::TypeErr)
        } else if toks.len() < 3 {
            Err(ErrorType::ArgCountErr)
        } else if !parses_as_usize(toks[2]) {
            Err(ErrorType::TypeErr)
        } else {
            Ok(
                CommandModel::Print(
                    digits_value(toks[1]) as usize,
                    digits_value(toks[2]) as usize,
                ),
            )
        }
    } else if toks[0] == "f"@ {
        if toks.len() < 2 {
            Err(ErrorType::ArgCountErr)
        } else {
            Ok(CommandModel::Find(toks[1]))
        }
    } else if toks[0] == "s"@ {
        Ok(CommandModel::Save)
    } else if toks[0] == "q"@ {
        Ok(CommandModel::Quit)
    } else {
        Err(ErrorType::CmdErr)
    }
}

/// Parses one command line. The caller performs the command: the editor
/// loop around this function reads input lines for `i`/`a` and writes
/// the file for `s`.
pub fn parse_command(input: &str) -> (r: Result<Command, ErrorType>)
    ensures
        ({
            let s = spec_parse_command(input@);
            match r {
                Ok(c) => s matches Ok(m) && c@ == m,
                Err(e) => s matches Err(m) && e == m,
            }
        }),
{
    let toks = tokenize(input);
    let ghost tv = tokens(input@);
    if toks.len() == 0 {
        return Err(ErrorType::CmdErr);
    }
    let c0 = toks[0].as_str();
    proof {
        assert(c0@ == tv[0]);
    }
    if str_eq(c0, "i") {
        if toks.len() >= 2 {
            match parse_usize(toks[1].as_str()) {
                Some(v) => Ok(Command::Insert(Some(v))),
                None => Ok(Command::Insert(None)),
            }
        } else {
            Ok(Command::Insert(None))
        }
    } else if str_eq(c0, "a") {
        Ok(Command::Append)
    } else if str_eq(c0, "p") {
        if toks.len() < 2 {
            return Err(ErrorType::ArgCountErr);
        }
        let n1 = match parse_usize(toks[1].as_str()) {
            Some(v) => v,
            None => {
                return Err(ErrorType::TypeErr);
            },
        };
        if toks.len() < 3 {
            return Err(ErrorType::ArgCountErr);
        }
        let n2 = match parse_usize(toks[2].as_str()) {
            Some(v) => v,
            None => {
                return Err(ErrorType::TypeErr);
            },
        };
        Ok(Command::Print(n1, n2))
    } else if str_eq(c0, "f") {
        if toks.len() < 2 {
            return Err(ErrorType::ArgCountErr);
        }
        Ok(Command::Find(toks[1].clone()))
    } else if str_eq(c0, "s") {
        Ok(Command::Save)
    } else if str_eq(c0, "q") {
        Ok(Command::Quit)
    } else {
        Err(ErrorType::CmdErr)
    }
}

} // verus!
