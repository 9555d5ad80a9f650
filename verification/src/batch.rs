//! The batch coordinator: the targets of a run, and what is written for
//! each of them around the lines of its entries.

use crate::names::dot;
use crate::render::Config;
use crate::text::{option_text, texts};
use vstd::prelude::*;

verus! {

/// What is written, and to which stream.
#[derive(Clone, Debug, PartialEq, Eq)]
pub enum Output {
    /// A line for the standard output.
    Line(String),
    /// A line for the diagnostic stream.
    Diagnostic(String),
}

/// An `Output` as text.
pub enum OutputText {
    Line(Seq<char>),
    Diagnostic(Seq<char>),
}

impl View for Output {
    type V = OutputText;

    open spec fn view(&self) -> OutputText {
        match *self {
            Output::Line(text) => OutputText::Line(text@),
            Output::Diagnostic(text) => OutputText::Diagnostic(text@),
        }
    }
}

/// What a run of outputs holds, as texts.
pub open spec fn output_texts(outputs: Seq<Output>) -> Seq<OutputText> {
    Seq::new(outputs.len(), |i: int| outputs[i]@)
}

/// The targets of a run: the paths as they were given, or the current
/// directory where none was given.
pub open spec fn effective_paths(given: Seq<Seq<char>>) -> Seq<Seq<char>> {
    if given.len() == 0 {
        seq![dot()]
    } else {
        given
    }
}

/// The line that stands above the entries of `path`.
pub open spec fn header_of(path: Seq<char>) -> Seq<char> {
    path.push(':')
}

/// A header stands above the entries of each target where the run has more
/// than one.
pub open spec fn has_header(num_paths: nat) -> bool {
    num_paths > 1
}

/// The header of `path` in a run of `num_paths` targets, where it has one.
pub open spec fn header_for(path: Seq<char>, num_paths: nat) -> Option<Seq<char>> {
    if has_header(num_paths) {
        Some(header_of(path))
    } else {
        None
    }
}

/// An empty line follows the entries of each target but the last.
pub open spec fn has_separator(index: nat, num_paths: nat) -> bool {
    index + 1 < num_paths
}

/// What is written for the target at `index` of `num_paths`: the header
/// where there is one, the diagnostic where the target could not be read,
/// the lines of its entries, and the empty line where one follows.
pub open spec fn target_output_of(
    path: Seq<char>,
    index: nat,
    num_paths: nat,
    diagnostic: Option<Seq<char>>,
    lines: Seq<Seq<char>>,
) -> Seq<OutputText> {
    (if has_header(num_paths) {
        seq![OutputText::Line(header_of(path))]
    } else {
        Seq::empty()
    }) + (match diagnostic {
        Some(text) => seq![OutputText::Diagnostic(text)],
        None => Seq::empty(),
    }) + Seq::new(lines.len(), |i: int| OutputText::Line(lines[i])) + (if has_separator(
        index,
        num_paths,
    ) {
        seq![OutputText::Line(Seq::empty())]
    } else {
        Seq::empty()
    })
}

/// A request for a listing: the targets, of which there is at least one,
/// and how the listing is made. Once made it does not change.
pub struct ListingRequest {
    paths: Vec<String>,
    config: Config,
}

impl ListingRequest {
    #[verifier::type_invariant]
    spec fn has_target(self) -> bool {
        self.paths.len() > 0
    }

    /// The targets, as texts.
    pub closed spec fn targets(self) -> Seq<Seq<char>> {
        texts(self.paths@)
    }

    /// How the listing is made.
    pub closed spec fn settings(self) -> Config {
        self.config
    }

    /// A request for the paths `given`, or for the current directory where
    /// none is given.
    pub fn new(given: Vec<String>, config: Config) -> (request: Self)
        ensures
            request.targets() == effective_paths(texts(given@)),
            request.settings() == config,
    {
        if given.len() == 0 {
            proof {
                reveal_strlit(".");
            }
            let mut paths: Vec<String> = Vec::new();
            paths.push(String::from_str("."));
            assert(paths[0]@ =~= dot());
            assert(texts(paths@) =~= seq![dot()]);
            ListingRequest { paths, config }
        } else {
            ListingRequest { paths: given, config }
        }
    }

    /// The targets, in the order in which they are listed.
    pub fn paths(&self) -> (paths: &Vec<String>)
        ensures
            texts(paths@) == self.targets(),
            paths.len() > 0,
    {
        proof {
            use_type_invariant(self);
        }
        &self.paths
    }

    /// How the listing is made.
    pub fn config(&self) -> (config: Config)
        ensures
            config == self.settings(),
    {
        self.config
    }
}

/// The header that stands above the entries of `path` in a run of
/// `num_paths` targets: the path and a colon where the run has more than one
/// target, else none.
pub fn header_line(path: &str, num_paths: usize) -> (header: Option<String>)
    ensures
        option_text(header) == header_for(path@, num_paths as nat),
{
    if num_paths > 1 {
        let mut line = String::from_str(path);
        line.push(':');
        Some(line)
    } else {
        None
    }
}

/// Whether an empty line follows the entries of the target at `index` in a
/// run of `num_paths` targets: after each but the last.
pub fn needs_separator(index: usize, num_paths: usize) -> (needed: bool)
    ensures
        needed == has_separator(index as nat, num_paths as nat),
{
    index < num_paths && index + 1 < num_paths
}

/// A run of outputs with one more at its end holds, as texts, what it held
/// and the text of that one.
proof fn lemma_output_pushed(before: Seq<Output>, last: Output)
    ensures
        output_texts(before.push(last)) == output_texts(before).push(last@),
{
    assert(output_texts(before.push(last)) =~= output_texts(before).push(last@));
}

/// What is written for one target, in the order in which it is written.
pub fn target_output(
    path: &str,
    index: usize,
    num_paths: usize,
    diagnostic: Option<String>,
    lines: &Vec<String>,
) -> (outputs: Vec<Output>)
    ensures
        output_texts(outputs@) == target_output_of(
            path@,
            index as nat,
            num_paths as nat,
            option_text(diagnostic),
            texts(lines@),
        ),
{
    let ghost said = option_text(diagnostic);
    let mut outputs: Vec<Output> = Vec::new();
    assert(output_texts(outputs@) =~= Seq::empty());
    match header_line(path, num_paths) {
        Some(line) => {
            proof {
                lemma_output_pushed(outputs@, Output::Line(line));
            }
            outputs.push(Output::Line(line));
        },
        None => {},
    }
    let ghost head = output_texts(outputs@);
    assert(head =~= if has_header(num_paths as nat) {
        seq![OutputText::Line(header_of(path@))]
    } else {
        Seq::empty()
    });
    match diagnostic {
        Some(text) => {
            proof {
                lemma_output_pushed(outputs@, Output::Diagnostic(text));
            }
            outputs.push(Output::Diagnostic(text));
        },
        None => {},
    }
    let ghost front = output_texts(outputs@);
    assert(front =~= head + (match said {
        Some(text) => seq![OutputText::Diagnostic(text)],
        None => Seq::empty(),
    }));
    let mut i: usize = 0;
    assert(front =~= front + Seq::new(0, |k: int| OutputText::Line(lines[k]@)));
    while i < lines.len()
        invariant
            i <= lines.len(),
            output_texts(outputs@) == front + Seq::new(
                i as nat,
                |k: int| OutputText::Line(lines[k]@),
            ),
        decreases lines.len() - i,
    {
        let line = lines[i].clone();
        proof {
            lemma_output_pushed(outputs@, Output::Line(line));
            assert((front + Seq::new(i as nat, |k: int| OutputText::Line(lines[k]@))).push(
                OutputText::Line(line@),
            ) =~= front + Seq::new((i + 1) as nat, |k: int| OutputText::Line(lines[k]@)));
        }
        outputs.push(Output::Line(line));
        i += 1;
    }
    let ghost body = output_texts(outputs@);
    assert(body =~= front + Seq::new(
        texts(lines@).len(),
        |k: int| OutputText::Line(texts(lines@)[k]),
    ));
    if needs_separator(index, num_paths) {
        let blank = String::new();
        proof {
            lemma_output_pushed(outputs@, Output::Line(blank));
        }
        outputs.push(Output::Line(blank));
    }
    assert(output_texts(outputs@) =~= body + (if has_separator(index as nat, num_paths as nat) {
        seq![OutputText::Line(Seq::empty())]
    } else {
        Seq::empty()
    }));
    outputs
}

} // verus!
