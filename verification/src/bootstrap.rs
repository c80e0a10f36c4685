//! The making of the local mirror, as a machine of states and commands.

use vstd::prelude::*;
use crate::failure::Failure;
use crate::names::{append_suffix, mirror_path, path_in_mirror, with_suffix, MIRROR_DIR, SENTINEL};
use crate::remote::{file_address, listing_address, Remote, RemoteView};
use crate::scrape::{editor_source, file_listing, listing_of, source_of};
use crate::text::{copy_texts, texts};
use crate::whitelist::{listed, Whitelist};

verus! {

/// How far the making of the mirror has come.
#[derive(Clone, Copy, Debug, PartialEq, Eq)]
pub enum Phase {
    /// The mirror directory is being reset.
    Resetting,
    /// The page that lists the files of the project is being fetched.
    Listing,
    /// The page of the next file is being fetched.
    Fetching,
    /// The next file is being written into the mirror.
    Writing,
    /// Every listed file is in the mirror.
    Ready,
    /// The mirror could not be made.
    Aborted(Failure),
}

/// What the caller has to carry out next.
#[derive(Debug, PartialEq, Eq)]
pub enum Command {
    /// Remove `directory` with all that is in it, make it anew, and make the
    /// empty file `sentinel` in it.
    Reset { directory: String, sentinel: String },
    /// Get the page at `url`.
    Fetch { url: String },
    /// Make or replace the file at `path` with `contents`.
    Store { path: String, contents: String },
    /// The mirror is complete: watch it.
    Watch,
    /// Give up: the mirror cannot be made.
    Abort(Failure),
}

/// What a `Command` stands for.
pub enum CommandView {
    Reset { directory: Seq<char>, sentinel: Seq<char> },
    Fetch { url: Seq<char> },
    Store { path: Seq<char>, contents: Seq<char> },
    Watch,
    Abort(Failure),
}

impl View for Command {
    type V = CommandView;

    open spec fn view(&self) -> CommandView {
        match self {
            Command::Reset { directory, sentinel } => CommandView::Reset {
                directory: directory@,
                sentinel: sentinel@,
            },
            Command::Fetch { url } => CommandView::Fetch { url: url@ },
            Command::Store { path, contents } => CommandView::Store {
                path: path@,
                contents: contents@,
            },
            Command::Watch => CommandView::Watch,
            Command::Abort(failure) => CommandView::Abort(*failure),
        }
    }
}

impl Clone for Command {
    fn clone(&self) -> (copy: Command)
        ensures
            copy@ == self@,
    {
        match self {
            Command::Reset { directory, sentinel } => Command::Reset {
                directory: directory.clone(),
                sentinel: sentinel.clone(),
            },
            Command::Fetch { url } => Command::Fetch { url: url.clone() },
            Command::Store { path, contents } => Command::Store {
                path: path.clone(),
                contents: contents.clone(),
            },
            Command::Watch => Command::Watch,
            Command::Abort(failure) => Command::Abort(*failure),
        }
    }
}

/// How the last command ended.
#[derive(Debug, PartialEq, Eq)]
pub enum Reply {
    /// It was carried out, and there is nothing to hand back.
    Done,
    /// The page that was to be fetched.
    Page(String),
    /// It could not be carried out.
    Failed(Failure),
}

/// What a `Reply` stands for.
pub enum ReplyView {
    Done,
    Page(Seq<char>),
    Failed(Failure),
}

impl View for Reply {
    type V = ReplyView;

    open spec fn view(&self) -> ReplyView {
        match self {
            Reply::Done => ReplyView::Done,
            Reply::Page(page) => ReplyView::Page(page@),
            Reply::Failed(failure) => ReplyView::Failed(*failure),
        }
    }
}

impl Clone for Reply {
    fn clone(&self) -> (copy: Reply)
        ensures
            copy@ == self@,
    {
        match self {
            Reply::Done => Reply::Done,
            Reply::Page(page) => Reply::Page(page.clone()),
            Reply::Failed(failure) => Reply::Failed(*failure),
        }
    }
}

/// What a reply says, once the page in it has been read.
#[derive(Debug, PartialEq, Eq)]
pub enum Input {
    /// The command was carried out.
    Done,
    /// The basenames that the page of the project lists.
    Listing(Vec<String>),
    /// The source text that the page of a file shows.
    Source(String),
    /// The command could not be carried out, or its page could not be read.
    Failed(Failure),
}

/// What an `Input` stands for.
pub enum InputView {
    Done,
    Listing(Seq<Seq<char>>),
    Source(Seq<char>),
    Failed(Failure),
}

impl View for Input {
    type V = InputView;

    open spec fn view(&self) -> InputView {
        match self {
            Input::Done => InputView::Done,
            Input::Listing(basenames) => InputView::Listing(texts(basenames@)),
            Input::Source(source) => InputView::Source(source@),
            Input::Failed(failure) => InputView::Failed(*failure),
        }
    }
}

impl Clone for Input {
    fn clone(&self) -> (copy: Input)
        ensures
            copy@ == self@,
    {
        match self {
            Input::Done => Input::Done,
            Input::Listing(basenames) => Input::Listing(copy_texts(basenames)),
            Input::Source(source) => Input::Source(source.clone()),
            Input::Failed(failure) => Input::Failed(*failure),
        }
    }
}

/// The making of the local mirror of one project, step by step: the caller
/// carries out each command and hands back how it ended.
pub struct Bootstrap {
    remote: Remote,
    phase: Phase,
    listing: Vec<String>,
    whitelist: Whitelist,
}

/// What a `Bootstrap` stands for.
pub struct BootstrapView {
    pub remote: RemoteView,
    pub phase: Phase,
    /// The basenames that the remote service listed, in its order.
    pub listing: Seq<Seq<char>>,
    /// The names of the files that are in the mirror so far.
    pub whitelist: Seq<Seq<char>>,
}

impl View for Bootstrap {
    type V = BootstrapView;

    closed spec fn view(&self) -> BootstrapView {
        BootstrapView {
            remote: self.remote@,
            phase: self.phase,
            listing: texts(self.listing@),
            whitelist: self.whitelist@,
        }
    }
}

/// The files in the mirror are those of the first entries of the listing, as
/// many as the phase allows: none before the listing is known, all when the
/// mirror is ready.
pub open spec fn coherent(state: BootstrapView) -> bool {
    &&& state.whitelist.len() <= state.listing.len()
    &&& state.whitelist == listed(state.listing.take(state.whitelist.len() as int))
    &&& match state.phase {
        Phase::Resetting | Phase::Listing => state.listing.len() == 0,
        Phase::Fetching | Phase::Writing => state.whitelist.len() < state.listing.len(),
        Phase::Ready => state.whitelist.len() == state.listing.len(),
        Phase::Aborted(_) => true,
    }
}

/// The state in which the making of a mirror begins.
pub open spec fn initial(remote: RemoteView) -> BootstrapView {
    BootstrapView {
        remote,
        phase: Phase::Resetting,
        listing: Seq::empty(),
        whitelist: Seq::empty(),
    }
}

/// The command with which the making of a mirror begins.
pub open spec fn first_command() -> CommandView {
    CommandView::Reset { directory: MIRROR_DIR@, sentinel: path_in_mirror(SENTINEL@) }
}

/// What a reply says in a phase: a page is read as the listing of the
/// project or as the page of a file, whichever the phase waits for.
pub open spec fn interpreted(phase: Phase, reply: ReplyView) -> InputView {
    match reply {
        ReplyView::Done => InputView::Done,
        ReplyView::Failed(failure) => InputView::Failed(failure),
        ReplyView::Page(page) => match phase {
            Phase::Listing => match listing_of(page) {
                Some(basenames) => InputView::Listing(basenames),
                None => InputView::Failed(Failure::Shape),
            },
            Phase::Fetching => match source_of(page) {
                Some(source) => InputView::Source(source),
                None => InputView::Failed(Failure::Shape),
            },
            _ => InputView::Failed(Failure::OutOfTurn),
        },
    }
}

/// The state after a failure: nothing but the phase changes.
pub open spec fn aborted(state: BootstrapView, failure: Failure) -> (BootstrapView, CommandView) {
    (BootstrapView { phase: Phase::Aborted(failure), ..state }, CommandView::Abort(failure))
}

/// The state once the first `written` files of `listing` are in the mirror,
/// and what is to be done then: the next file is fetched, or the mirror is
/// ready.
pub open spec fn proceeding(
    remote: RemoteView,
    listing: Seq<Seq<char>>,
    written: int,
) -> (BootstrapView, CommandView) {
    let whitelist = listed(listing.take(written));
    if written < listing.len() {
        (
            BootstrapView { remote, phase: Phase::Fetching, listing, whitelist },
            CommandView::Fetch { url: file_address(remote, listing[written]) },
        )
    } else {
        (BootstrapView { remote, phase: Phase::Ready, listing, whitelist }, CommandView::Watch)
    }
}

/// The next state and the next command, given how the last command ended.
///
/// Any failure aborts, and so does an input that the phase does not wait
/// for. Once the mirror is ready or its making has been aborted, nothing
/// changes any more.
pub open spec fn transition(
    state: BootstrapView,
    input: InputView,
) -> (BootstrapView, CommandView) {
    match state.phase {
        Phase::Ready => (state, CommandView::Watch),
        Phase::Aborted(failure) => (state, CommandView::Abort(failure)),
        Phase::Resetting => match input {
            InputView::Done => (
                BootstrapView { phase: Phase::Listing, ..state },
                CommandView::Fetch { url: listing_address(state.remote) },
            ),
            InputView::Failed(failure) => aborted(state, failure),
            _ => aborted(state, Failure::OutOfTurn),
        },
        Phase::Listing => match input {
            InputView::Listing(basenames) => proceeding(state.remote, basenames, 0),
            InputView::Failed(failure) => aborted(state, failure),
            _ => aborted(state, Failure::OutOfTurn),
        },
        Phase::Fetching => match input {
            InputView::Source(source) => (
                BootstrapView { phase: Phase::Writing, ..state },
                CommandView::Store {
                    path: path_in_mirror(with_suffix(state.listing[state.whitelist.len() as int])),
                    contents: source,
                },
            ),
            InputView::Failed(failure) => aborted(state, failure),
            _ => aborted(state, Failure::OutOfTurn),
        },
        Phase::Writing => match input {
            InputView::Done => proceeding(
                state.remote,
                state.listing,
                state.whitelist.len() as int + 1,
            ),
            InputView::Failed(failure) => aborted(state, failure),
            _ => aborted(state, Failure::OutOfTurn),
        },
    }
}

/// The state after a run of inputs, each taken in as `transition` says.
pub open spec fn state_after(state: BootstrapView, inputs: Seq<InputView>) -> BootstrapView
    decreases inputs.len(),
{
    if inputs.len() == 0 {
        state
    } else {
        state_after(transition(state, inputs[0]).0, inputs.drop_first())
    }
}

/// The commands that answer a run of inputs, one for each.
pub open spec fn commands_for(state: BootstrapView, inputs: Seq<InputView>) -> Seq<CommandView>
    decreases inputs.len(),
{
    if inputs.len() == 0 {
        Seq::empty()
    } else {
        seq![transition(state, inputs[0]).1] + commands_for(
            transition(state, inputs[0]).0,
            inputs.drop_first(),
        )
    }
}

/// The commands among `commands` that write a file into the mirror.
pub open spec fn stores(commands: Seq<CommandView>) -> Seq<CommandView> {
    commands.filter(|command: CommandView| command is Store)
}

/// What comes in for the files of a making in which nothing fails: for
/// each file its source, and then the word that it was written.
pub open spec fn file_inputs(sources: Seq<Seq<char>>) -> Seq<InputView>
    decreases sources.len(),
{
    if sources.len() == 0 {
        Seq::empty()
    } else {
        seq![InputView::Source(sources[0]), InputView::Done] + file_inputs(sources.drop_first())
    }
}

/// What comes in during a making in which nothing fails: the word that the
/// mirror was reset, the listing, and then what comes in for the files.
pub open spec fn smooth_inputs(
    listing: Seq<Seq<char>>,
    sources: Seq<Seq<char>>,
) -> Seq<InputView> {
    seq![InputView::Done, InputView::Listing(listing)] + file_inputs(sources)
}

/// The command that writes the file of the remote file `basename`.
pub open spec fn store_of(basename: Seq<char>, source: Seq<char>) -> CommandView {
    CommandView::Store { path: path_in_mirror(with_suffix(basename)), contents: source }
}

impl Bootstrap {
    #[verifier::type_invariant]
    spec fn well_formed(&self) -> bool {
        coherent(self@)
    }

    /// Begins the making of the mirror of the project that `remote` names.
    pub fn new(remote: Remote) -> (start: (Bootstrap, Command))
        ensures
            start.0@ == initial(remote@),
            start.1@ == first_command(),
    {
        let whitelist = Whitelist::new();
        let listing: Vec<String> = Vec::new();
        proof {
            assert(texts(listing@) =~= Seq::<Seq<char>>::empty());
            assert(listed(Seq::<Seq<char>>::empty().take(0)) =~= Seq::<Seq<char>>::empty());
        }
        let bootstrap = Bootstrap { remote, phase: Phase::Resetting, listing, whitelist };
        let command = Command::Reset {
            directory: String::from_str(MIRROR_DIR),
            sentinel: mirror_path(SENTINEL),
        };
        (bootstrap, command)
    }

    /// How far the making of the mirror has come.
    pub fn phase(&self) -> (phase: Phase)
        ensures
            phase == self@.phase,
    {
        self.phase
    }

    /// The names of the files that are in the mirror so far.
    pub fn whitelist(&self) -> (whitelist: &Whitelist)
        ensures
            whitelist@ == self@.whitelist,
            coherent(self@),
    {
        proof {
            use_type_invariant(self);
        }
        &self.whitelist
    }

    /// Reads the page that a reply holds, as the phase asks.
    fn interpret(&self, reply: Reply) -> (input: Input)
        ensures
            input@ == interpreted(self@.phase, reply@),
    {
        match reply {
            Reply::Done => Input::Done,
            Reply::Failed(failure) => Input::Failed(failure),
            Reply::Page(page) => match self.phase {
                Phase::Listing => match file_listing(page.as_str()) {
                    Ok(basenames) => Input::Listing(basenames),
                    Err(failure) => Input::Failed(failure),
                },
                Phase::Fetching => match editor_source(page.as_str()) {
                    Ok(source) => Input::Source(source),
                    Err(failure) => Input::Failed(failure),
                },
                _ => Input::Failed(Failure::OutOfTurn),
            },
        }
    }

    /// Gives up.
    fn abort(self, failure: Failure) -> (next: (Bootstrap, Command))
        ensures
            (next.0@, next.1@) == aborted(self@, failure),
    {
        proof {
            use_type_invariant(&self);
        }
        let Bootstrap { remote, phase: _, listing, whitelist } = self;
        let next = Bootstrap { remote, phase: Phase::Aborted(failure), listing, whitelist };
        (next, Command::Abort(failure))
    }

    /// Goes on to the next file, or finishes.
    fn proceed(
        remote: Remote,
        listing: Vec<String>,
        whitelist: Whitelist,
    ) -> (next: (Bootstrap, Command))
        requires
            whitelist@.len() <= listing@.len(),
            whitelist@ == listed(texts(listing@).take(whitelist@.len() as int)),
        ensures
            (next.0@, next.1@) == proceeding(remote@, texts(listing@), whitelist@.len() as int),
    {
        let written = whitelist.len();
        if written < listing.len() {
            let url = remote.file_url(listing[written].as_str());
            let next = Bootstrap { remote, phase: Phase::Fetching, listing, whitelist };
            (next, Command::Fetch { url })
        } else {
            (Bootstrap { remote, phase: Phase::Ready, listing, whitelist }, Command::Watch)
        }
    }

    /// Takes in what the reply to the last command said, and gives the next
    /// state and the next command.
    pub fn accept(self, input: Input) -> (next: (Bootstrap, Command))
        ensures
            (next.0@, next.1@) == transition(self@, input@),
            coherent(next.0@),
    {
        proof {
            use_type_invariant(&self);
        }
        match self.phase {
            Phase::Ready => (self, Command::Watch),
            Phase::Aborted(failure) => (self, Command::Abort(failure)),
            Phase::Resetting => match input {
                Input::Done => {
                    let url = self.remote.listing_url();
                    let Bootstrap { remote, phase: _, listing, whitelist } = self;
                    let next = Bootstrap { remote, phase: Phase::Listing, listing, whitelist };
                    (next, Command::Fetch { url })
                },
                Input::Failed(failure) => self.abort(failure),
                _ => self.abort(Failure::OutOfTurn),
            },
            Phase::Listing => match input {
                Input::Listing(basenames) => {
                    let Bootstrap { remote, phase: _, listing: _, whitelist } = self;
                    proof {
                        assert(whitelist@.len() == 0);
                        assert(whitelist@ =~= listed(texts(basenames@).take(0)));
                    }
                    Bootstrap::proceed(remote, basenames, whitelist)
                },
                Input::Failed(failure) => self.abort(failure),
                _ => self.abort(Failure::OutOfTurn),
            },
            Phase::Fetching => match input {
                Input::Source(contents) => {
                    let file_name = append_suffix(self.listing[self.whitelist.len()].as_str());
                    let path = mirror_path(file_name.as_str());
                    let Bootstrap { remote, phase: _, listing, whitelist } = self;
                    let next = Bootstrap { remote, phase: Phase::Writing, listing, whitelist };
                    (next, Command::Store { path, contents })
                },
                Input::Failed(failure) => self.abort(failure),
                _ => self.abort(Failure::OutOfTurn),
            },
            Phase::Writing => match input {
                Input::Done => {
                    let file_name = append_suffix(self.listing[self.whitelist.len()].as_str());
                    let Bootstrap { remote, phase: _, listing, mut whitelist } = self;
                    proof {
                        let all = texts(listing@);
                        let written = whitelist@.len() as int;
                        assert(all.take(written + 1) =~= all.take(written).push(all[written]));
                        assert(listed(all.take(written).push(all[written])) =~= listed(
                            all.take(written),
                        ).push(with_suffix(all[written])));
                    }
                    whitelist.push(file_name);
                    Bootstrap::proceed(remote, listing, whitelist)
                },
                Input::Failed(failure) => self.abort(failure),
                _ => self.abort(Failure::OutOfTurn),
            },
        }
    }

    /// Takes in how the last command ended, and gives the next state and the
    /// next command.
    pub fn advance(self, reply: Reply) -> (next: (Bootstrap, Command))
        ensures
            (next.0@, next.1@) == transition(self@, interpreted(self@.phase, reply@)),
            coherent(next.0@),
    {
        let input = self.interpret(reply);
        self.accept(input)
    }

    /// The remote project and the whitelist of its mirror, once the mirror is
    /// ready; else why it is not: the failure that aborted its making, or
    /// `Failure::OutOfTurn` while it is still being made.
    pub fn finish(self) -> (outcome: Result<(Remote, Whitelist), Failure>)
        ensures
            match outcome {
                Ok(session) => {
                    &&& self@.phase == Phase::Ready
                    &&& session.0@ == self@.remote
                    &&& session.1@ == self@.whitelist
                    &&& session.1@ == listed(self@.listing)
                },
                Err(failure) => match self@.phase {
                    Phase::Ready => false,
                    Phase::Aborted(cause) => failure == cause,
                    _ => failure == Failure::OutOfTurn,
                },
            },
    {
        proof {
            use_type_invariant(&self);
            assert(self@.listing.take(self@.listing.len() as int) =~= self@.listing);
        }
        let Bootstrap { remote, phase, listing: _, whitelist } = self;
        match phase {
            Phase::Ready => Ok((remote, whitelist)),
            Phase::Aborted(failure) => Err(failure),
            _ => Err(Failure::OutOfTurn),
        }
    }
}

/// Every step keeps the state coherent.
pub proof fn lemma_transition_is_coherent(state: BootstrapView, input: InputView)
    requires
        coherent(state),
    ensures
        coherent(transition(state, input).0),
{
    let written = state.whitelist.len() as int;
    match state.phase {
        Phase::Listing => {
            if let InputView::Listing(basenames) = input {
                assert(listed(basenames.take(0)).len() == 0);
                assert(basenames.take(0).len() == 0);
            }
        },
        Phase::Writing => {
            if input is Done {
                assert(state.listing.take(written + 1).len() == written + 1);
            }
        },
        _ => {},
    }
}

/// Once the making of the mirror has been aborted it stays so: whatever
/// comes in, the state does not change and the command is to give up.
pub proof fn lemma_aborted_stays(state: BootstrapView, failure: Failure, inputs: Seq<InputView>)
    requires
        state.phase == Phase::Aborted(failure),
    ensures
        state_after(state, inputs) == state,
        commands_for(state, inputs) == Seq::new(
            inputs.len(),
            |i: int| CommandView::Abort(failure),
        ),
    decreases inputs.len(),
{
    if inputs.len() > 0 {
        lemma_aborted_stays(state, failure, inputs.drop_first());
    }
    assert(commands_for(state, inputs) =~= Seq::new(
        inputs.len(),
        |i: int| CommandView::Abort(failure),
    ));
}

/// A failure while the mirror is being made is final. Where the listing of
/// the project cannot be fetched, as in every other phase of the making,
/// the failure aborts: from then on every command is to give up, so that
/// no file is fetched or written any more, and the watch never begins.
pub proof fn lemma_failure_is_final(
    state: BootstrapView,
    failure: Failure,
    later: Seq<InputView>,
)
    requires
        state.phase != Phase::Ready,
        !(state.phase is Aborted),
    ensures
        state_after(state, seq![InputView::Failed(failure)] + later) == (BootstrapView {
            phase: Phase::Aborted(failure),
            ..state
        }),
        commands_for(state, seq![InputView::Failed(failure)] + later) == Seq::new(
            later.len() + 1,
            |i: int| CommandView::Abort(failure),
        ),
{
    let inputs = seq![InputView::Failed(failure)] + later;
    let next = BootstrapView { phase: Phase::Aborted(failure), ..state };
    assert(inputs[0] == InputView::Failed(failure));
    assert(inputs.drop_first() =~= later);
    assert(transition(state, inputs[0]) == (next, CommandView::Abort(failure)));
    lemma_aborted_stays(next, failure, later);
    assert(commands_for(state, inputs) =~= Seq::new(
        later.len() + 1,
        |i: int| CommandView::Abort(failure),
    ));
}

/// Two inputs at the head of a run are two steps.
proof fn lemma_two_steps(
    state: BootstrapView,
    first: InputView,
    second: InputView,
    rest: Seq<InputView>,
)
    ensures
        state_after(state, seq![first, second] + rest) == state_after(
            transition(transition(state, first).0, second).0,
            rest,
        ),
        commands_for(state, seq![first, second] + rest) == seq![
            transition(state, first).1,
            transition(transition(state, first).0, second).1,
        ] + commands_for(transition(transition(state, first).0, second).0, rest),
{
    let inputs = seq![first, second] + rest;
    let tail = inputs.drop_first();
    let middle = transition(state, first).0;
    let next = transition(middle, second).0;
    assert(inputs[0] == first);
    assert(tail[0] == second);
    assert(tail.drop_first() =~= rest);
    assert(state_after(state, inputs) == state_after(middle, tail));
    assert(state_after(middle, tail) == state_after(next, tail.drop_first()));
    assert(commands_for(state, inputs) == seq![transition(state, first).1] + commands_for(
        middle,
        tail,
    ));
    assert(commands_for(middle, tail) == seq![transition(middle, second).1] + commands_for(
        next,
        tail.drop_first(),
    ));
    assert(seq![transition(state, first).1] + (seq![transition(middle, second).1] + commands_for(
        next,
        rest,
    )) =~= seq![transition(state, first).1, transition(middle, second).1] + commands_for(
        next,
        rest,
    ));
}

/// The writes among two commands and what follows them.
proof fn lemma_stores_of_two(first: CommandView, second: CommandView, rest: Seq<CommandView>)
    requires
        !(second is Store),
    ensures
        stores(seq![first, second] + rest) == if first is Store {
            seq![first] + stores(rest)
        } else {
            stores(rest)
        },
{
    let is_store = |command: CommandView| command is Store;
    let none = Seq::<CommandView>::empty();
    none.lemma_filter_len(is_store);
    none.lemma_filter_push(first, is_store);
    none.push(first).lemma_filter_push(second, is_store);
    assert(seq![first, second] =~= none.push(first).push(second));
    Seq::filter_distributes_over_add(seq![first, second], rest, is_store);
    if first is Store {
        assert(none.filter(is_store).push(first) =~= seq![first]);
    } else {
        assert(none.filter(is_store) + stores(rest) =~= stores(rest));
    }
}

/// From the fetching of a file on, a making in which nothing fails writes
/// each of the files that are left, in the order of the listing and with
/// the source that came for it, and ends ready, with the whitelist of the
/// whole listing.
proof fn lemma_smooth_files(state: BootstrapView, sources: Seq<Seq<char>>)
    requires
        coherent(state),
        state.phase == Phase::Fetching,
        sources.len() == state.listing.len() - state.whitelist.len(),
    ensures
        state_after(state, file_inputs(sources)) == (BootstrapView {
            phase: Phase::Ready,
            whitelist: listed(state.listing),
            ..state
        }),
        stores(commands_for(state, file_inputs(sources))) == Seq::new(
            sources.len(),
            |i: int| store_of(state.listing[state.whitelist.len() + i], sources[i]),
        ),
        commands_for(state, file_inputs(sources)).len() > 0,
        commands_for(state, file_inputs(sources)).last() == CommandView::Watch,
    decreases sources.len(),
{
    let written = state.whitelist.len() as int;
    let rest = sources.drop_first();
    let source = InputView::Source(sources[0]);
    let writing = transition(state, source).0;
    let store = transition(state, source).1;
    let next = transition(writing, InputView::Done).0;
    let go_on = transition(writing, InputView::Done).1;
    let after = commands_for(next, file_inputs(rest));
    let wanted = Seq::new(
        sources.len(),
        |i: int| store_of(state.listing[state.whitelist.len() + i], sources[i]),
    );

    assert(file_inputs(sources) == seq![source, InputView::Done] + file_inputs(rest));
    lemma_two_steps(state, source, InputView::Done, file_inputs(rest));
    lemma_transition_is_coherent(state, source);
    lemma_transition_is_coherent(writing, InputView::Done);
    lemma_stores_of_two(store, go_on, after);
    assert(store == wanted[0]);
    let found = stores(commands_for(state, file_inputs(sources)));
    assert(found == seq![store] + stores(after));

    if rest.len() == 0 {
        assert(state.listing.take(written + 1) =~= state.listing);
        assert(after =~= Seq::<CommandView>::empty());
        after.lemma_filter_len(|command: CommandView| command is Store);
        assert(found =~= wanted);
    } else {
        lemma_smooth_files(next, rest);
        assert(found.len() == wanted.len());
        assert forall|i: int| 0 <= i < wanted.len() implies found[i] == wanted[i] by {
            if i > 0 {
                assert(found[i] == stores(after)[i - 1]);
                assert(rest[i - 1] == sources[i]);
            }
        }
        assert(found =~= wanted);
    }
}

/// A making in which nothing fails mirrors exactly the listing: it writes
/// one file for each basename of the listing, in that order, under the
/// name of the basename with the suffix and with the source that came for
/// it; it writes nothing else; and it ends ready for the watch, with the
/// names of exactly those files as its whitelist.
pub proof fn lemma_smooth_bootstrap(
    remote: RemoteView,
    listing: Seq<Seq<char>>,
    sources: Seq<Seq<char>>,
)
    requires
        sources.len() == listing.len(),
    ensures
        state_after(initial(remote), smooth_inputs(listing, sources)) == (BootstrapView {
            remote,
            phase: Phase::Ready,
            listing,
            whitelist: listed(listing),
        }),
        stores(commands_for(initial(remote), smooth_inputs(listing, sources))) == Seq::new(
            listing.len(),
            |i: int| store_of(listing[i], sources[i]),
        ),
        commands_for(initial(remote), smooth_inputs(listing, sources)).last()
            == CommandView::Watch,
{
    let start = initial(remote);
    let known = InputView::Listing(listing);
    let listing_wanted = transition(start, InputView::Done).0;
    let first = transition(start, InputView::Done).1;
    let next = transition(listing_wanted, known).0;
    let second = transition(listing_wanted, known).1;
    let after = commands_for(next, file_inputs(sources));
    let wanted = Seq::new(listing.len(), |i: int| store_of(listing[i], sources[i]));

    assert(coherent(start)) by {
        assert(start.listing.take(0) =~= Seq::<Seq<char>>::empty());
        assert(listed(Seq::<Seq<char>>::empty()) =~= Seq::<Seq<char>>::empty());
    }
    lemma_two_steps(start, InputView::Done, known, file_inputs(sources));
    lemma_transition_is_coherent(start, InputView::Done);
    lemma_transition_is_coherent(listing_wanted, known);
    lemma_stores_of_two(first, second, after);
    assert(next.whitelist =~= Seq::<Seq<char>>::empty()) by {
        assert(listing.take(0).len() == 0);
    }

    if listing.len() == 0 {
        assert(after =~= Seq::<CommandView>::empty());
        after.lemma_filter_len(|command: CommandView| command is Store);
        assert(listed(listing) =~= Seq::<Seq<char>>::empty());
        assert(stores(after) =~= wanted);
    } else {
        lemma_smooth_files(next, sources);
        assert(stores(after) =~= wanted);
    }
}

} // verus!
