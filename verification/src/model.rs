//! The specification model: flags, positional arguments, and the parser
//! that owns them, together with their mathematical views.

use vstd::prelude::*;
use crate::text::lower;
use crate::text::str_views;
use crate::text::string_views;

verus! {

/// A flag in specifications: title, display text, and the ordered labels of
/// its option slots.
pub struct FlagView {
    pub title: Seq<char>,
    pub description: Seq<char>,
    pub options: Seq<Seq<char>>,
}

/// A positional argument in specifications: title and display text.
pub struct ArgumentView {
    pub title: Seq<char>,
    pub description: Seq<char>,
}

/// A parser in specifications: the usage banner and the declared flags and
/// arguments, each kept in declaration order.
pub struct ParserView {
    pub title: Seq<char>,
    pub description: Seq<char>,
    pub flags: Seq<FlagView>,
    pub arguments: Seq<ArgumentView>,
}

/// A named, marker-prefixed flag.  Its option slot labels are display text:
/// however many slots are declared, at most one option value is captured per
/// occurrence.
pub struct Flag {
    pub title: String,
    pub description: String,
    pub options: Vec<String>,
}

impl View for Flag {
    type V = FlagView;

    open spec fn view(&self) -> FlagView {
        FlagView {
            title: self.title@,
            description: self.description@,
            options: string_views(self.options@),
        }
    }
}

/// A named positional argument.
pub struct Argument {
    pub title: String,
    pub description: String,
}

impl View for Argument {
    type V = ArgumentView;

    open spec fn view(&self) -> ArgumentView {
        ArgumentView { title: self.title@, description: self.description@ }
    }
}

/// A parser: a usage banner plus the declared flags and positional
/// arguments.  Built once, read-only during parsing.
pub struct Parser {
    pub project_title: String,
    pub project_description: String,
    pub flags: Vec<Flag>,
    pub arguments: Vec<Argument>,
}

impl View for Parser {
    type V = ParserView;

    open spec fn view(&self) -> ParserView {
        ParserView {
            title: self.project_title@,
            description: self.project_description@,
            flags: self.flags@.map_values(|f: Flag| f@),
            arguments: self.arguments@.map_values(|a: Argument| a@),
        }
    }
}

/// Titles act as identifiers: flag titles are pairwise distinct once
/// case-folded, argument titles are pairwise distinct as declared.  Building
/// a parser that violates this is the caller's programming error; parsing
/// does not defend against it.
pub open spec fn distinct_titles(p: ParserView) -> bool {
    &&& forall|i: int, j: int|
        0 <= i < j < p.flags.len() ==> lower(p.flags[i].title) != lower(p.flags[j].title)
    &&& forall|i: int, j: int|
        0 <= i < j < p.arguments.len() ==> p.arguments[i].title != p.arguments[j].title
}

impl Flag {
    /// An empty flag, meant to be filled in by hand.
    pub fn new() -> (r: Flag)
        ensures
            r@.title == Seq::<char>::empty(),
            r@.description == Seq::<char>::empty(),
            r@.options == Seq::<Seq<char>>::empty(),
    {
        let r = Flag { title: String::new(), description: String::new(), options: Vec::new() };
        proof {
            assert(r@.options =~= Seq::<Seq<char>>::empty());
        }
        r
    }
}

impl Argument {
    /// An empty argument, meant to be filled in by hand.
    pub fn new() -> (r: Argument)
        ensures
            r@.title == Seq::<char>::empty(),
            r@.description == Seq::<char>::empty(),
    {
        Argument { title: String::new(), description: String::new() }
    }
}

/// Builds a flag from its title, description and option slot labels.
pub fn create_flag(title: &str, description: &str, options: Vec<&str>) -> (r: Flag)
    ensures
        r@.title == title@,
        r@.description == description@,
        r@.options == str_views(options@),
{
    let mut return_vec: Vec<String> = Vec::new();
    let mut i: usize = 0;
    while i < options.len()
        invariant
            i <= options.len(),
            string_views(return_vec@) == str_views(options@.take(i as int)),
        decreases options.len() - i,
    {
        let ghost before = return_vec@;
        let x = options[i].to_owned();
        return_vec.push(x);
        proof {
            crate::text::lemma_string_views_push(before, x);
            assert(str_views(options@.take(i + 1 as int)) =~= str_views(
                options@.take(i as int),
            ).push(x@));
        }
        i += 1;
    }
    proof {
        assert(options@.take(options@.len() as int) =~= options@);
    }
    Flag { title: title.to_owned(), description: description.to_owned(), options: return_vec }
}

/// Builds a positional argument from its title and description.
pub fn create_arg(title: &str, description: &str) -> (r: Argument)
    ensures
        r@.title == title@,
        r@.description == description@,
{
    Argument { title: title.to_owned(), description: description.to_owned() }
}

/// Builds a parser from its banner text and its declared flags and
/// arguments, kept in declaration order.
pub fn create_parser(
    project_title: &str,
    project_description: &str,
    flags: Vec<Flag>,
    arguments: Vec<Argument>,
) -> (r: Parser)
    ensures
        r@.title == project_title@,
        r@.description == project_description@,
        r@.flags == flags@.map_values(|f: Flag| f@),
        r@.arguments == arguments@.map_values(|a: Argument| a@),
{
    Parser {
        project_title: project_title.to_owned(),
        project_description: project_description.to_owned(),
        flags,
        arguments,
    }
}

} // verus!
