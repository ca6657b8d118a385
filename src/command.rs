use vstd::prelude::*;
use crate::model::{find_first, lemma_find_first};
use crate::library::{lower_of, views_of, lowercase, position_of};

verus! {

/// The words of a line, as `str::split_whitespace` cuts them.
pub uninterp spec fn words_of(s: Seq<char>) -> Seq<Seq<char>>;

/// Relies on `str::split_whitespace`: the words depend on the characters of `s` alone.
#[verifier::external_body]
fn split_words(s: &str) -> (r: Vec<String>)
    ensures
        views_of(r@) == words_of(s@),
{
    s.split_whitespace().map(|w| w.to_string()).collect()
}

/// A command of the shell, as the contracts see it.
pub enum CommandView {
    Nothing,
    Quit,
    Help,
    Add { title: Seq<char>, author: Seq<char> },
    AddUsage,
    AddWithoutBy,
    Borrow(Seq<char>),
    BorrowUsage,
    Return(Seq<char>),
    ReturnUsage,
    List,
    Unknown(Seq<char>),
}

/// A command of the shell, read from one line.
#[derive(Debug, Clone, PartialEq)]
pub enum Command {
    /// The line holds no word.
    Nothing,
    Quit,
    Help,
    Add { title: String, author: String },
    /// `add` with fewer than two more words.
    AddUsage,
    /// `add` with no `by` among the words that follow it.
    AddWithoutBy,
    Borrow(String),
    /// `borrow` alone.
    BorrowUsage,
    Return(String),
    /// `return` alone.
    ReturnUsage,
    List,
    /// A first word that names no command, as it was written.
    Unknown(String),
}

impl View for Command {
    type V = CommandView;

    open spec fn view(&self) -> CommandView {
        match self {
            Command::Nothing => CommandView::Nothing,
            Command::Quit => CommandView::Quit,
            Command::Help => CommandView::Help,
            Command::Add { title, author } => CommandView::Add { title: title@, author: author@ },
            Command::AddUsage => CommandView::AddUsage,
            Command::AddWithoutBy => CommandView::AddWithoutBy,
            Command::Borrow(t) => CommandView::Borrow(t@),
            Command::BorrowUsage => CommandView::BorrowUsage,
            Command::Return(t) => CommandView::Return(t@),
            Command::ReturnUsage => CommandView::ReturnUsage,
            Command::List => CommandView::List,
            Command::Unknown(w) => CommandView::Unknown(w@),
        }
    }
}

/// The words of `ws` with one space between each two.
pub open spec fn joined(ws: Seq<Seq<char>>) -> Seq<char>
    decreases ws.len(),
{
    if ws.len() == 0 {
        Seq::empty()
    } else if ws.len() == 1 {
        ws[0]
    } else {
        joined(ws.drop_last()) + " "@ + ws.last()
    }
}

/// The command that the words `words` give, where `head` is the first word in
/// lower case.
pub open spec fn command_spec(words: Seq<Seq<char>>, head: Seq<char>) -> CommandView {
    if words.len() == 0 {
        CommandView::Nothing
    } else if head == "quit"@ || head == "q"@ {
        CommandView::Quit
    } else if head == "help"@ || head == "h"@ {
        CommandView::Help
    } else if head == "add"@ {
        if words.len() < 3 {
            CommandView::AddUsage
        } else {
            match find_first(words.skip(1), "by"@) {
                None => CommandView::AddWithoutBy,
                Some(k) => CommandView::Add {
                    title: joined(words.subrange(1, k + 1)),
                    author: joined(words.subrange(k + 2, words.len() as int)),
                },
            }
        }
    } else if head == "borrow"@ {
        if words.len() < 2 {
            CommandView::BorrowUsage
        } else {
            CommandView::Borrow(joined(words.skip(1)))
        }
    } else if head == "return"@ {
        if words.len() < 2 {
            CommandView::ReturnUsage
        } else {
            CommandView::Return(joined(words.skip(1)))
        }
    } else if head == "list"@ || head == "ls"@ {
        CommandView::List
    } else {
        CommandView::Unknown(words[0])
    }
}

/// Whether `s` is exactly `w`.
fn is_word(s: &String, w: &str) -> (r: bool)
    ensures
        r == (s@ == w@),
{
    let w = w.to_owned();
    *s == w
}

/// The words `words[from..to]` with one space between each two.
pub fn join_words(words: &Vec<String>, from: usize, to: usize) -> (r: String)
    requires
        from <= to <= words@.len(),
    ensures
        r@ == joined(views_of(words@).subrange(from as int, to as int)),
{
    let ghost ws = views_of(words@);
    let mut s = String::new();
    let mut i: usize = from;
    while i < to
        invariant
            from <= i <= to <= words@.len(),
            ws == views_of(words@),
            s@ == joined(ws.subrange(from as int, i as int)),
        decreases to - i,
    {
        assert(ws.subrange(from as int, i + 1).drop_last() =~= ws.subrange(from as int, i as int));
        if i > from {
            s.append(" ");
        } else {
            assert(s@ =~= Seq::<char>::empty());
        }
        s.append(words[i].as_str());
        i += 1;
    }
    s
}

/// The command that `words` gives, where `head` is its first word in lower case.
pub fn command_of(words: &Vec<String>, head: &String) -> (r: Command)
    ensures
        r@ == command_spec(views_of(words@), head@),
{
    let n = words.len();
    if n == 0 {
        Command::Nothing
    } else if is_word(head, "quit") || is_word(head, "q") {
        Command::Quit
    } else if is_word(head, "help") || is_word(head, "h") {
        Command::Help
    } else if is_word(head, "add") {
        if n < 3 {
            return Command::AddUsage;
        }
        let mut rest: Vec<String> = Vec::new();
        let mut i: usize = 1;
        while i < n
            invariant
                1 <= i <= n == words@.len(),
                rest@.len() == i - 1,
                forall|j: int| 0 <= j < rest@.len() ==> #[trigger] rest@[j]@ == words@[j + 1]@,
            decreases n - i,
        {
            rest.push(words[i].clone());
            i += 1;
        }
        assert(views_of(rest@) =~= views_of(words@).subrange(1, n as int));
        assert(views_of(words@).subrange(1, n as int) =~= views_of(words@).skip(1));
        let by = "by".to_owned();
        proof { lemma_find_first(views_of(rest@), by@); }
        match position_of(&rest, &by) {
            None => Command::AddWithoutBy,
            Some(k) => Command::Add { title: join_words(words, 1, k + 1), author: join_words(words, k + 2, n) },
        }
    } else if is_word(head, "borrow") {
        if n < 2 {
            Command::BorrowUsage
        } else {
            assert(views_of(words@).subrange(1, n as int) =~= views_of(words@).skip(1));
            Command::Borrow(join_words(words, 1, n))
        }
    } else if is_word(head, "return") {
        if n < 2 {
            Command::ReturnUsage
        } else {
            assert(views_of(words@).subrange(1, n as int) =~= views_of(words@).skip(1));
            Command::Return(join_words(words, 1, n))
        }
    } else if is_word(head, "list") || is_word(head, "ls") {
        Command::List
    } else {
        Command::Unknown(words[0].clone())
    }
}

/// The command that a line of input gives: its words, with the first one
/// matched regardless of case.
pub fn parse_command(line: &str) -> (r: Command)
    ensures
        words_of(line@).len() == 0 ==> r@ == CommandView::Nothing,
        words_of(line@).len() > 0 ==> r@ == command_spec(words_of(line@), lower_of(words_of(line@)[0])),
{
    let words = split_words(line);
    if words.len() == 0 {
        return Command::Nothing;
    }
    let head = lowercase(words[0].as_str());
    command_of(&words, &head)
}

} // verus!
