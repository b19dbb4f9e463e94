//! What the sensor reader asks of the system, and what it hears back.

use crate::names::names_of;
use crate::temps::CommandOutput;
use vstd::prelude::*;

verus! {

/// A thing to do outside.
pub enum Request {
    /// List the entries of a directory.
    ListDir(Vec<u8>),
    /// Read a file as text.
    ReadFile(Vec<u8>),
    /// See whether a path exists.
    Exists(Vec<u8>),
    /// Run a command: its name, then its arguments.
    Run(Vec<String>),
    /// Wait for a number of milliseconds.
    Sleep(u64),
}

/// What came of a request.
pub enum Reply {
    /// The names in a directory, if it could be listed.
    Listing(Option<Vec<Vec<u8>>>),
    /// The text in a file, if it could be read and is UTF-8.
    Text(Option<String>),
    /// Whether the path exists.
    Found(bool),
    /// What the command left behind, if it could be run.
    Output(Option<CommandOutput>),
    /// The wait is over.
    Slept,
}

/// A thing to do outside, as values.
pub ghost enum RequestView {
    /// List the entries of a directory.
    ListDir(Seq<u8>),
    /// Read a file as text.
    ReadFile(Seq<u8>),
    /// See whether a path exists.
    Exists(Seq<u8>),
    /// Run a command.
    Run(Seq<Seq<char>>),
    /// Wait for a number of milliseconds.
    Sleep(u64),
}

/// What came of a request, as values.
pub ghost enum ReplyView {
    /// The names in a directory, if it could be listed.
    Listing(Option<Seq<Seq<u8>>>),
    /// The text in a file, if it could be read and is UTF-8.
    Text(Option<Seq<char>>),
    /// Whether the path exists.
    Found(bool),
    /// Success and standard output of the command, if it could be run.
    Output(Option<(bool, Seq<u8>)>),
    /// The wait is over.
    Slept,
}

impl View for Request {
    type V = RequestView;

    open spec fn view(&self) -> RequestView {
        match self {
            Request::ListDir(path) => RequestView::ListDir(path@),
            Request::ReadFile(path) => RequestView::ReadFile(path@),
            Request::Exists(path) => RequestView::Exists(path@),
            Request::Run(words) => RequestView::Run(words@.map_values(|s: String| s@)),
            Request::Sleep(ms) => RequestView::Sleep(*ms),
        }
    }
}

impl View for Reply {
    type V = ReplyView;

    open spec fn view(&self) -> ReplyView {
        match self {
            Reply::Listing(Some(names)) => ReplyView::Listing(Some(names_of(names@))),
            Reply::Listing(None) => ReplyView::Listing(None),
            Reply::Text(Some(text)) => ReplyView::Text(Some(text@)),
            Reply::Text(None) => ReplyView::Text(None),
            Reply::Found(found) => ReplyView::Found(*found),
            Reply::Output(Some(output)) => ReplyView::Output(Some(output@)),
            Reply::Output(None) => ReplyView::Output(None),
            Reply::Slept => ReplyView::Slept,
        }
    }
}

/// The contents of a request, if there is one.
pub open spec fn request_view(request: Option<Request>) -> Option<RequestView> {
    match request {
        Some(r) => Some(r@),
        None => None,
    }
}

/// A reply to another kind of request counts as one that nothing came of.
impl ReplyView {
    /// The names that were listed.
    pub open spec fn listing(self) -> Option<Seq<Seq<u8>>> {
        match self {
            ReplyView::Listing(names) => names,
            _ => None,
        }
    }

    /// The text that was read.
    pub open spec fn text(self) -> Option<Seq<char>> {
        match self {
            ReplyView::Text(text) => text,
            _ => None,
        }
    }

    /// Whether the path was found.
    pub open spec fn found(self) -> bool {
        match self {
            ReplyView::Found(found) => found,
            _ => false,
        }
    }

    /// What the command left behind.
    pub open spec fn output(self) -> Option<(bool, Seq<u8>)> {
        match self {
            ReplyView::Output(output) => output,
            _ => None,
        }
    }
}

impl Reply {
    /// The names that were listed.
    pub fn listing(self) -> (r: Option<Vec<Vec<u8>>>)
        ensures
            self@.listing() == match r {
                Some(names) => Some(names_of(names@)),
                None => None,
            },
            self matches Reply::Listing(it) ==> r == it,
            !(self is Listing) ==> r is None,
    {
        match self {
            Reply::Listing(names) => names,
            _ => None,
        }
    }

    /// The text that was read.
    pub fn text(self) -> (r: Option<String>)
        ensures
            self@.text() == match r {
                Some(text) => Some(text@),
                None => None,
            },
            self matches Reply::Text(it) ==> r == it,
            !(self is Text) ==> r is None,
    {
        match self {
            Reply::Text(text) => text,
            _ => None,
        }
    }

    /// Whether the path was found.
    pub fn found(self) -> (r: bool)
        ensures
            r == self@.found(),
            r <==> self == Reply::Found(true),
    {
        match self {
            Reply::Found(found) => found,
            _ => false,
        }
    }

    /// What the command left behind.
    pub fn output(self) -> (r: Option<CommandOutput>)
        ensures
            self@.output() == match r {
                Some(output) => Some(output@),
                None => None,
            },
            self matches Reply::Output(it) ==> r == it,
            !(self is Output) ==> r is None,
    {
        match self {
            Reply::Output(output) => output,
            _ => None,
        }
    }
}

/// Whether going from a stage and an amount of work to others is an advance:
/// to a lower stage, or to less work in the same stage.
pub open spec fn advances(from: (nat, nat), to: (nat, nat)) -> bool {
    ||| to.0 < from.0
    ||| to.0 == from.0 && to.1 < from.1
}

/// A system in which nothing changes while it is looked at.
pub ghost struct World {
    /// The names in a directory, if it can be listed.
    pub listing: spec_fn(Seq<u8>) -> Option<Seq<Seq<u8>>>,
    /// The text in a file, if it can be read and is UTF-8.
    pub text: spec_fn(Seq<u8>) -> Option<Seq<char>>,
    /// Whether a path exists.
    pub exists: spec_fn(Seq<u8>) -> bool,
    /// Success and standard output of a command, if it can be run.
    pub run: spec_fn(Seq<Seq<char>>) -> Option<(bool, Seq<u8>)>,
}

impl World {
    /// What comes of a request in this world.
    pub open spec fn answer(self, request: RequestView) -> ReplyView {
        match request {
            RequestView::ListDir(path) => ReplyView::Listing((self.listing)(path)),
            RequestView::ReadFile(path) => ReplyView::Text((self.text)(path)),
            RequestView::Exists(path) => ReplyView::Found((self.exists)(path)),
            RequestView::Run(words) => ReplyView::Output((self.run)(words)),
            RequestView::Sleep(ms) => ReplyView::Slept,
        }
    }
}

/// The view of a request names the same thing to do: the same path, the same words,
/// the same time.
pub proof fn law_contents_of_request(path: Vec<u8>, words: Vec<String>, ms: u64)
    ensures
        Request::ListDir(path)@ == RequestView::ListDir(path@),
        Request::ReadFile(path)@ == RequestView::ReadFile(path@),
        Request::Exists(path)@ == RequestView::Exists(path@),
        Request::Run(words)@ is Run,
        Request::Run(words)@->Run_0.len() == words@.len(),
        forall|i: int|
            0 <= i < words@.len() ==> #[trigger] Request::Run(words)@->Run_0[i] == words@[i]@,
        Request::Sleep(ms)@ == RequestView::Sleep(ms),
{
}

/// The view of a reply holds all that came of the request.
pub proof fn law_contents_of_reply(
    names: Vec<Vec<u8>>,
    text: String,
    found: bool,
    output: CommandOutput,
)
    ensures
        Reply::Listing(None)@ == ReplyView::Listing(None),
        Reply::Listing(Some(names))@ is Listing,
        Reply::Listing(Some(names))@->Listing_0 is Some,
        Reply::Listing(Some(names))@->Listing_0->0.len() == names@.len(),
        forall|i: int|
            0 <= i < names@.len() ==> #[trigger] Reply::Listing(Some(names))@->Listing_0->0[i]
                == names@[i]@,
        Reply::Text(None)@ == ReplyView::Text(None),
        Reply::Text(Some(text))@ == ReplyView::Text(Some(text@)),
        Reply::Found(found)@ == ReplyView::Found(found),
        Reply::Output(None)@ == ReplyView::Output(None),
        Reply::Output(Some(output))@ == ReplyView::Output(
            Some((output.success, output.stdout@)),
        ),
        Reply::Slept@ == ReplyView::Slept,
{
}

/// A world answers each request with what it holds of the thing that was asked for, and
/// a reply gives back what it was made of.
pub proof fn law_answer_is_of_the_world(w: World, path: Seq<u8>, words: Seq<Seq<char>>, ms: u64)
    ensures
        w.answer(RequestView::ListDir(path)).listing() == (w.listing)(path),
        w.answer(RequestView::ReadFile(path)).text() == (w.text)(path),
        w.answer(RequestView::Exists(path)).found() == (w.exists)(path),
        w.answer(RequestView::Run(words)).output() == (w.run)(words),
        w.answer(RequestView::Sleep(ms)) == ReplyView::Slept,
{
}

} // verus!
