//! What a line of input asks for: a meta command, which starts with a dot,
//! or a statement for the database.

use crate::text::text_eq;
use vstd::prelude::*;
use vstd::std_specs::iter::IteratorSpec;

verus! {

/// A command to the program itself.
#[derive(Debug, PartialEq)]
pub enum MetaCommand {
    Exit,
    ListTables,
    PrintData,
    /// Write a snapshot to the path given.
    Persist(String),
    /// Read a snapshot from the path given.
    Restore(String),
    /// Any other line that starts with a dot; the line is given.
    Unknown(String),
}

/// A statement for the database, by its first word; the whole line is given.
#[derive(Debug, PartialEq)]
pub enum DbCommand {
    Insert(String),
    Delete(String),
    Update(String),
    CreateTable(String),
    Select(String),
    Unknown(String),
}

/// A line of input, classified.
#[derive(Debug, PartialEq)]
pub enum CommandType {
    MetaCommand(MetaCommand),
    DbCommand(DbCommand),
}

/// The mathematical content of a [`MetaCommand`].
pub enum MetaView {
    Exit,
    ListTables,
    PrintData,
    Persist(Seq<char>),
    Restore(Seq<char>),
    Unknown(Seq<char>),
}

/// The mathematical content of a [`DbCommand`].
pub enum DbView {
    Insert(Seq<char>),
    Delete(Seq<char>),
    Update(Seq<char>),
    CreateTable(Seq<char>),
    Select(Seq<char>),
    Unknown(Seq<char>),
}

/// The mathematical content of a [`CommandType`].
pub enum CommandView {
    MetaCommand(MetaView),
    DbCommand(DbView),
}

impl View for MetaCommand {
    type V = MetaView;

    open spec fn view(&self) -> MetaView {
        match self {
            MetaCommand::Exit => MetaView::Exit,
            MetaCommand::ListTables => MetaView::ListTables,
            MetaCommand::PrintData => MetaView::PrintData,
            MetaCommand::Persist(p) => MetaView::Persist(p@),
            MetaCommand::Restore(p) => MetaView::Restore(p@),
            MetaCommand::Unknown(c) => MetaView::Unknown(c@),
        }
    }
}

impl View for DbCommand {
    type V = DbView;

    open spec fn view(&self) -> DbView {
        match self {
            DbCommand::Insert(c) => DbView::Insert(c@),
            DbCommand::Delete(c) => DbView::Delete(c@),
            DbCommand::Update(c) => DbView::Update(c@),
            DbCommand::CreateTable(c) => DbView::CreateTable(c@),
            DbCommand::Select(c) => DbView::Select(c@),
            DbCommand::Unknown(c) => DbView::Unknown(c@),
        }
    }
}

impl View for CommandType {
    type V = CommandView;

    open spec fn view(&self) -> CommandView {
        match self {
            CommandType::MetaCommand(m) => CommandView::MetaCommand(m@),
            CommandType::DbCommand(d) => CommandView::DbCommand(d@),
        }
    }
}

/// `s` with every match of `from` replaced by `to`, the matches taken from
/// left to right, none overlapping another; the empty text matches before
/// every character and at the end.
pub open spec fn replaced(s: Seq<char>, from: Seq<char>, to: Seq<char>) -> Seq<char>
    decreases s.len(),
{
    if from.len() == 0 {
        if s.len() == 0 {
            to
        } else {
            to + seq![s[0]] + replaced(s.drop_first(), from, to)
        }
    } else if s.len() < from.len() {
        s
    } else if s.take(from.len() as int) == from {
        to + replaced(s.skip(from.len() as int), from, to)
    } else {
        seq![s[0]] + replaced(s.drop_first(), from, to)
    }
}

/// `s` without the white space at its two ends, as `str::trim` of the
/// standard library gives it.
pub uninterp spec fn trimmed(s: Seq<char>) -> Seq<char>;

/// Whether `part` stands somewhere in `s`.
pub open spec fn occurs_in(s: Seq<char>, part: Seq<char>) -> bool {
    exists|i: int|
        0 <= i && i + part.len() <= s.len() && #[trigger] s.subrange(i, i + part.len()) == part
}

/// Whether `c` is a visible character of ASCII: one from `!` to `~`.
pub open spec fn is_visible(c: char) -> bool {
    '!' <= c && c <= '~'
}

/// Whether `c` is white space of ASCII: a space, or one of the five from
/// the tab to the carriage return.
pub open spec fn is_plain_space(c: char) -> bool {
    c == ' ' || ('\t' <= c && c <= '\r')
}

/// Whether `s` holds characters of ASCII only.
pub open spec fn plain(s: Seq<char>) -> bool {
    forall|i: int| 0 <= i < s.len() ==> #[trigger] s[i] <= '\u{7f}'
}

/// `s` without the white space of ASCII at its start.
pub open spec fn stripped_start(s: Seq<char>) -> Seq<char>
    decreases s.len(),
{
    if s.len() > 0 && is_plain_space(s[0]) {
        stripped_start(s.drop_first())
    } else {
        s
    }
}

/// `s` without the white space of ASCII at its end.
pub open spec fn stripped_end(s: Seq<char>) -> Seq<char>
    decreases s.len(),
{
    if s.len() > 0 && is_plain_space(s.last()) {
        stripped_end(s.drop_last())
    } else {
        s
    }
}

/// `s` without the white space at its two ends: for a text of ASCII, `s`
/// without the white space of ASCII there; for any other, what `str::trim`
/// gives.
pub open spec fn trimmed_of(s: Seq<char>) -> Seq<char> {
    if plain(s) {
        stripped_end(stripped_start(s))
    } else {
        trimmed(s)
    }
}

/// Calls `str::replace`: the result is `s` with the matches of `from`
/// replaced by `to`, found from left to right and not overlapping.
#[verifier::external_body]
fn replace(s: &str, from: &str, to: &str) -> (r: String)
    ensures
        r@ == replaced(s@, from@, to@),
{
    s.replace(from, to)
}

/// Calls `str::trim`: the result is `s` without leading and trailing white
/// space, which depends on `s` alone. An empty text, and one that begins
/// and ends with a visible character of ASCII, has none to lose. In a text
/// of ASCII the white space is the space and the five characters from the
/// tab to the carriage return.
#[verifier::external_body]
fn trim(s: &str) -> (r: &str)
    ensures
        r@ == trimmed(s@),
        s@.len() == 0 || (is_visible(s@[0]) && is_visible(s@[s@.len() - 1])) ==> r@ == s@,
        plain(s@) ==> r@ == stripped_end(stripped_start(s@)),
{
    s.trim()
}

/// A text in which `from` stands nowhere is left as it is.
pub proof fn lemma_replaced_without_match(s: Seq<char>, from: Seq<char>, to: Seq<char>)
    requires
        !occurs_in(s, from),
    ensures
        replaced(s, from, to) == s,
    decreases s.len(),
{
    if from.len() == 0 {
        assert(s.subrange(0int, 0int + from.len()) =~= from);
    } else if s.len() >= from.len() {
        assert(s.subrange(0int, 0int + from.len()) =~= s.take(from.len() as int));
        let rest = s.drop_first();
        assert forall|i: int| 0 <= i && i + from.len() <= rest.len() implies #[trigger] rest.subrange(
            i,
            i + from.len(),
        ) != from by {
            assert(rest.subrange(i, i + from.len()) =~= s.subrange(i + 1, i + 1 + from.len()));
        }
        lemma_replaced_without_match(rest, from, to);
        assert(seq![s[0]] + rest =~= s);
    }
}

/// Whether `s` starts with `prefix`.
pub open spec fn starts_with(s: Seq<char>, prefix: Seq<char>) -> bool {
    prefix.len() <= s.len() && s.take(prefix.len() as int) == prefix
}

/// The part of `s` before its first space; all of `s` where it has none.
pub open spec fn first_word(s: Seq<char>) -> Seq<char>
    decreases s.len(),
{
    if s.len() == 0 || s[0] == ' ' {
        Seq::empty()
    } else {
        seq![s[0]] + first_word(s.drop_first())
    }
}

/// The argument of a meta command: the line without the command's name,
/// without quotes of either kind, and without white space at its ends.
pub open spec fn argument_of(command: Seq<char>, meta_command: Seq<char>) -> Seq<char> {
    trimmed_of(
        replaced(
            replaced(replaced(command, meta_command, Seq::empty()), seq!['\''], Seq::empty()),
            seq!['"'],
            Seq::empty(),
        ),
    )
}

/// The meta command that a line is.
pub open spec fn meta_command_of(command: Seq<char>) -> MetaView {
    if command == ".exit"@ {
        MetaView::Exit
    } else if command == ".tables"@ {
        MetaView::ListTables
    } else if command == ".data"@ {
        MetaView::PrintData
    } else if starts_with(command, ".persist"@) {
        MetaView::Persist(argument_of(command, ".persist"@))
    } else if starts_with(command, ".restore"@) {
        MetaView::Restore(argument_of(command, ".restore"@))
    } else {
        MetaView::Unknown(command)
    }
}

/// The statement that a line is, by its first word.
pub open spec fn db_command_of(command: Seq<char>) -> DbView {
    let word = first_word(command);
    if word == "insert"@ {
        DbView::Insert(command)
    } else if word == "update"@ {
        DbView::Update(command)
    } else if word == "delete"@ {
        DbView::Delete(command)
    } else if word == "create"@ {
        DbView::CreateTable(command)
    } else if word == "select"@ {
        DbView::Select(command)
    } else {
        DbView::Unknown(command)
    }
}

/// What a line asks for: a meta command where it starts with a dot, a
/// statement otherwise.
pub open spec fn command_of(cmd: Seq<char>) -> CommandView {
    if cmd.len() > 0 && cmd[0] == '.' {
        CommandView::MetaCommand(meta_command_of(cmd))
    } else {
        CommandView::DbCommand(db_command_of(cmd))
    }
}

/// Whether `s` starts with `prefix`.
pub fn text_starts_with(s: &str, prefix: &str) -> (r: bool)
    ensures
        r == starts_with(s@, prefix@),
{
    let mut is = s.chars();
    let mut ip = prefix.chars();
    let ghost mut i: int = 0;
    assert(s@.take(0) =~= prefix@.take(0));
    loop
        invariant
            0 <= i <= s@.len(),
            i <= prefix@.len(),
            is.remaining() == s@.skip(i),
            ip.remaining() == prefix@.skip(i),
            s@.take(i) == prefix@.take(i),
        decreases prefix@.len() - i,
    {
        match ip.next() {
            None => {
                proof {
                    assert(prefix@.take(i) =~= prefix@);
                }
                return true;
            },
            Some(y) => {
                match is.next() {
                    None => {
                        return false;
                    },
                    Some(x) => {
                        if x != y {
                            proof {
                                if prefix@.len() <= s@.len() {
                                    assert(s@.take(prefix@.len() as int)[i] == x);
                                    assert(prefix@[i] == y);
                                }
                            }
                            return false;
                        }
                        proof {
                            assert(s@.skip(i).drop_first() =~= s@.skip(i + 1));
                            assert(prefix@.skip(i).drop_first() =~= prefix@.skip(i + 1));
                            assert(s@.take(i + 1) =~= s@.take(i).push(x));
                            assert(prefix@.take(i + 1) =~= prefix@.take(i).push(y));
                            i = i + 1;
                        }
                    },
                }
            },
        }
    }
}

/// The first word of `s` is the part before the first space of `s`.
pub proof fn lemma_first_word(s: Seq<char>, n: int)
    requires
        0 <= n <= s.len(),
        forall|j: int| 0 <= j < n ==> s[j] != ' ',
        n < s.len() ==> s[n] == ' ',
    ensures
        first_word(s) == s.take(n),
    decreases n,
{
    if n == 0 {
        assert(s.take(0) =~= Seq::<char>::empty());
    } else {
        let rest = s.drop_first();
        assert forall|j: int| 0 <= j < n - 1 implies rest[j] != ' ' by {
            assert(rest[j] == s[j + 1]);
        }
        lemma_first_word(rest, n - 1);
        assert(seq![s[0]] + rest.take(n - 1) =~= s.take(n));
    }
}

/// Whether the first word of `s` is `word`.
pub fn first_word_is(s: &str, word: &str) -> (r: bool)
    ensures
        r == (first_word(s@) == word@),
{
    let mut is = s.chars();
    let mut iw = word.chars();
    let ghost mut i: int = 0;
    assert(s@.take(0) =~= word@.take(0));
    loop
        invariant
            0 <= i <= s@.len(),
            i <= word@.len(),
            is.remaining() == s@.skip(i),
            iw.remaining() == word@.skip(i),
            s@.take(i) == word@.take(i),
            forall|j: int| 0 <= j < i ==> s@[j] != ' ',
        decreases s@.len() - i,
    {
        let x = is.next();
        let y = iw.next();
        match x {
            None => {
                proof {
                    lemma_first_word(s@, i);
                    assert(s@.take(i) =~= s@);
                    if y is None {
                        assert(word@.take(i) =~= word@);
                    }
                }
                return y.is_none();
            },
            Some(x) => {
                if x == ' ' {
                    proof {
                        lemma_first_word(s@, i);
                        if y is None {
                            assert(word@.take(i) =~= word@);
                        }
                    }
                    return y.is_none();
                }
                match y {
                    None => {
                        proof {
                            let n = choose_word_end(s@, i);
                            lemma_first_word(s@, n);
                            assert(word@.take(i) =~= word@);
                        }
                        return false;
                    },
                    Some(y) => {
                        if x != y {
                            proof {
                                let n = choose_word_end(s@, i);
                                lemma_first_word(s@, n);
                                assert(s@.take(n)[i] == x);
                            }
                            return false;
                        }
                        proof {
                            assert(s@.skip(i).drop_first() =~= s@.skip(i + 1));
                            assert(word@.skip(i).drop_first() =~= word@.skip(i + 1));
                            assert(s@.take(i + 1) =~= s@.take(i).push(x));
                            assert(word@.take(i + 1) =~= word@.take(i).push(y));
                            i = i + 1;
                        }
                    },
                }
            },
        }
    }
}

/// Where the word ends that holds place `i` of `s`: the place of the first
/// space after `i`, or the length of `s`.
pub proof fn choose_word_end(s: Seq<char>, i: int) -> (n: int)
    requires
        0 <= i < s.len(),
        forall|j: int| 0 <= j <= i ==> s[j] != ' ',
    ensures
        i < n <= s.len(),
        forall|j: int| 0 <= j < n ==> s[j] != ' ',
        n < s.len() ==> s[n] == ' ',
    decreases s.len() - i,
{
    if i + 1 == s.len() || s[i + 1] == ' ' {
        i + 1
    } else {
        choose_word_end(s, i + 1)
    }
}

impl MetaCommand {
    /// The argument of a meta command: the line without the command's
    /// name, without quotes, and without white space at its ends.
    ///
    /// A line that holds neither the command's name nor a quote, and that
    /// is empty or begins and ends with a visible character of ASCII, is
    /// its own argument.
    pub fn trim_command(command: &str, meta_command: &str) -> (r: String)
        ensures
            r@ == argument_of(command@, meta_command@),
            ({
                &&& !occurs_in(command@, meta_command@)
                &&& !command@.contains('\'')
                &&& !command@.contains('"')
                &&& command@.len() == 0 || (is_visible(command@[0]) && is_visible(
                    command@[command@.len() - 1],
                ))
            }) ==> r@ == command@,
    {
        proof {
            reveal_strlit("");
            reveal_strlit("'");
            reveal_strlit("\"");
            assert(""@ =~= Seq::<char>::empty());
            assert("'"@ =~= seq!['\'']);
            assert("\""@ =~= seq!['"']);
            if !occurs_in(command@, meta_command@) && !command@.contains('\'')
                && !command@.contains('"') {
                lemma_replaced_without_match(command@, meta_command@, Seq::empty());
                if occurs_in(command@, seq!['\'']) {
                    let i = choose|i: int|
                        0 <= i && i + 1 <= command@.len() && #[trigger] command@.subrange(i, i + 1)
                            == seq!['\''];
                    assert(command@.subrange(i, i + 1)[0] == '\'');
                    assert(command@[i] == '\'');
                }
                lemma_replaced_without_match(command@, seq!['\''], Seq::empty());
                if occurs_in(command@, seq!['"']) {
                    let i = choose|i: int|
                        0 <= i && i + 1 <= command@.len() && #[trigger] command@.subrange(i, i + 1)
                            == seq!['"'];
                    assert(command@.subrange(i, i + 1)[0] == '"');
                    assert(command@[i] == '"');
                }
                lemma_replaced_without_match(command@, seq!['"'], Seq::empty());
            }
        }
        let command = replace(command, meta_command, "");
        let command = replace(command.as_str(), "'", "");
        let command = replace(command.as_str(), "\"", "");
        String::from_str(trim(command.as_str()))
    }

    /// Classifies a line that starts with a dot.
    pub fn new(command: String) -> (r: MetaCommand)
        ensures
            r@ == meta_command_of(command@),
    {
        if text_eq(command.as_str(), ".exit") {
            MetaCommand::Exit
        } else if text_eq(command.as_str(), ".tables") {
            MetaCommand::ListTables
        } else if text_eq(command.as_str(), ".data") {
            MetaCommand::PrintData
        } else if text_starts_with(command.as_str(), ".persist") {
            let trimmed_command = Self::trim_command(command.as_str(), ".persist");
            MetaCommand::Persist(trimmed_command)
        } else if text_starts_with(command.as_str(), ".restore") {
            let trimmed_command = Self::trim_command(command.as_str(), ".restore");
            MetaCommand::Restore(trimmed_command)
        } else {
            MetaCommand::Unknown(command)
        }
    }
}

impl DbCommand {
    /// Classifies a statement by its first word, which is the part of the
    /// line before its first space.
    pub fn new(command: String) -> (r: DbCommand)
        ensures
            r@ == db_command_of(command@),
    {
        if first_word_is(command.as_str(), "insert") {
            DbCommand::Insert(command)
        } else if first_word_is(command.as_str(), "update") {
            DbCommand::Update(command)
        } else if first_word_is(command.as_str(), "delete") {
            DbCommand::Delete(command)
        } else if first_word_is(command.as_str(), "create") {
            DbCommand::CreateTable(command)
        } else if first_word_is(command.as_str(), "select") {
            DbCommand::Select(command)
        } else {
            DbCommand::Unknown(command)
        }
    }
}

/// Classifies a line of input.
pub fn get_command_type(cmd: &String) -> (r: CommandType)
    ensures
        r@ == command_of(cmd@),
{
    proof {
        reveal_strlit(".");
        assert("."@ =~= seq!['.']);
        assert(starts_with(cmd@, seq!['.']) == (cmd@.len() > 0 && cmd@[0] == '.')) by {
            if cmd@.len() > 0 {
                assert(cmd@.take(1) =~= seq![cmd@[0]]);
                assert(seq![cmd@[0]][0] == cmd@[0]);
            }
        }
    }
    match text_starts_with(cmd.as_str(), ".") {
        true => CommandType::MetaCommand(MetaCommand::new(cmd.clone())),
        false => CommandType::DbCommand(DbCommand::new(cmd.clone())),
    }
}

} // verus!
