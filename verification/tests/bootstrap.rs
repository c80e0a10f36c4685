use aircode_client::bootstrap::{Bootstrap, Command, Input, Phase, Reply};
use aircode_client::failure::Failure;
use aircode_client::remote::Remote;

const LISTING_PAGE: &str = "<html><body><ul>\
<li class=\"backarrow\">Back</li><li>A</li><li>B</li><li>C</li>\
</ul></body></html>";

fn remote() -> Remote {
    Remote::new("http://host".to_string(), "Demo".to_string())
}

fn file_page(source: &str) -> String {
    format!("<html><body><div id=\"editor\">{}</div></body></html>", source)
}

fn fetch(url: &str) -> Command {
    Command::Fetch { url: url.to_string() }
}

fn store(path: &str, contents: &str) -> Command {
    Command::Store { path: path.to_string(), contents: contents.to_string() }
}

fn texts(names: &[&str]) -> Vec<String> {
    names.iter().map(|name| name.to_string()).collect()
}

#[test]
fn bootstrap_begins_with_the_reset_of_the_mirror() {
    let (bootstrap, command) = Bootstrap::new(remote());
    assert_eq!(bootstrap.phase(), Phase::Resetting);
    assert_eq!(bootstrap.whitelist().len(), 0);
    assert_eq!(
        command,
        Command::Reset {
            directory: "project".to_string(),
            sentinel: "project/restart".to_string(),
        }
    );
}

#[test]
fn bootstrap_of_three_files_mirrors_exactly_those() {
    let (bootstrap, _) = Bootstrap::new(remote());

    let (bootstrap, command) = bootstrap.advance(Reply::Done);
    assert_eq!(bootstrap.phase(), Phase::Listing);
    assert_eq!(command, fetch("http://host/projects/Demo/Main"));

    let (bootstrap, command) = bootstrap.advance(Reply::Page(LISTING_PAGE.to_string()));
    assert_eq!(bootstrap.phase(), Phase::Fetching);
    assert_eq!(command, fetch("http://host/projects/Demo/A"));

    let (bootstrap, command) = bootstrap.advance(Reply::Page(file_page("a &lt; b &amp;&amp; c")));
    assert_eq!(bootstrap.phase(), Phase::Writing);
    assert_eq!(command, store("project/A.lua", "a < b && c"));
    assert_eq!(bootstrap.whitelist().len(), 0);

    let (bootstrap, command) = bootstrap.advance(Reply::Done);
    assert_eq!(bootstrap.phase(), Phase::Fetching);
    assert_eq!(command, fetch("http://host/projects/Demo/B"));
    assert_eq!(bootstrap.whitelist().names(), &texts(&["A.lua"]));

    let (bootstrap, command) = bootstrap.advance(Reply::Page(file_page("print(&quot;b&quot;)")));
    assert_eq!(command, store("project/B.lua", "print(\"b\")"));

    let (bootstrap, command) = bootstrap.advance(Reply::Done);
    assert_eq!(command, fetch("http://host/projects/Demo/C"));

    let (bootstrap, command) = bootstrap.advance(Reply::Page(file_page("")));
    assert_eq!(command, store("project/C.lua", ""));

    let (bootstrap, command) = bootstrap.advance(Reply::Done);
    assert_eq!(bootstrap.phase(), Phase::Ready);
    assert_eq!(command, Command::Watch);
    assert_eq!(bootstrap.whitelist().names(), &texts(&["A.lua", "B.lua", "C.lua"]));

    let (remote, whitelist) = bootstrap.finish().unwrap();
    assert_eq!(remote.project(), "Demo");
    assert_eq!(whitelist.names(), &texts(&["A.lua", "B.lua", "C.lua"]));
}

#[test]
fn bootstrap_of_a_project_without_files_is_ready_at_once() {
    let (bootstrap, _) = Bootstrap::new(remote());
    let (bootstrap, _) = bootstrap.advance(Reply::Done);
    let (bootstrap, command) = bootstrap.accept(Input::Listing(Vec::new()));
    assert_eq!(command, Command::Watch);
    assert_eq!(bootstrap.phase(), Phase::Ready);
    let (_, whitelist) = bootstrap.finish().unwrap();
    assert_eq!(whitelist.len(), 0);
}

#[test]
fn failure_to_fetch_the_listing_aborts_for_good() {
    let (bootstrap, _) = Bootstrap::new(remote());
    let (bootstrap, _) = bootstrap.advance(Reply::Done);
    let (bootstrap, command) = bootstrap.advance(Reply::Failed(Failure::Transport));
    assert_eq!(command, Command::Abort(Failure::Transport));
    assert_eq!(bootstrap.phase(), Phase::Aborted(Failure::Transport));

    let (bootstrap, command) = bootstrap.advance(Reply::Page(LISTING_PAGE.to_string()));
    assert_eq!(command, Command::Abort(Failure::Transport));
    let (bootstrap, command) = bootstrap.advance(Reply::Done);
    assert_eq!(command, Command::Abort(Failure::Transport));
    let (bootstrap, command) = bootstrap.accept(Input::Listing(texts(&["A"])));
    assert_eq!(command, Command::Abort(Failure::Transport));
    let (bootstrap, command) = bootstrap.accept(Input::Source("x".to_string()));
    assert_eq!(command, Command::Abort(Failure::Transport));
    let (bootstrap, command) = bootstrap.advance(Reply::Failed(Failure::Storage));
    assert_eq!(command, Command::Abort(Failure::Transport));

    assert_eq!(bootstrap.phase(), Phase::Aborted(Failure::Transport));
    assert_eq!(bootstrap.whitelist().len(), 0);
    assert!(matches!(bootstrap.finish(), Err(Failure::Transport)));
}

#[test]
fn failure_to_reset_the_mirror_aborts() {
    let (bootstrap, _) = Bootstrap::new(remote());
    let (bootstrap, command) = bootstrap.advance(Reply::Failed(Failure::Storage));
    assert_eq!(command, Command::Abort(Failure::Storage));
    assert!(matches!(bootstrap.finish(), Err(Failure::Storage)));
}

#[test]
fn failure_to_fetch_a_file_aborts() {
    let (bootstrap, _) = Bootstrap::new(remote());
    let (bootstrap, _) = bootstrap.advance(Reply::Done);
    let (bootstrap, _) = bootstrap.accept(Input::Listing(texts(&["A", "B"])));
    let (bootstrap, _) = bootstrap.accept(Input::Source("a".to_string()));
    let (bootstrap, command) = bootstrap.accept(Input::Done);
    assert_eq!(command, fetch("http://host/projects/Demo/B"));
    let (bootstrap, command) = bootstrap.advance(Reply::Failed(Failure::Transport));
    assert_eq!(command, Command::Abort(Failure::Transport));
    assert_eq!(bootstrap.whitelist().names(), &texts(&["A.lua"]));
    assert!(matches!(bootstrap.finish(), Err(Failure::Transport)));
}

#[test]
fn failure_to_write_a_file_aborts() {
    let (bootstrap, _) = Bootstrap::new(remote());
    let (bootstrap, _) = bootstrap.advance(Reply::Done);
    let (bootstrap, _) = bootstrap.accept(Input::Listing(texts(&["A"])));
    let (bootstrap, command) = bootstrap.accept(Input::Source("a".to_string()));
    assert_eq!(command, store("project/A.lua", "a"));
    let (bootstrap, command) = bootstrap.advance(Reply::Failed(Failure::Storage));
    assert_eq!(command, Command::Abort(Failure::Storage));
    assert_eq!(bootstrap.whitelist().len(), 0);
}

#[test]
fn file_page_without_editor_aborts() {
    let (bootstrap, _) = Bootstrap::new(remote());
    let (bootstrap, _) = bootstrap.advance(Reply::Done);
    let (bootstrap, _) = bootstrap.advance(Reply::Page(LISTING_PAGE.to_string()));
    let (bootstrap, command) =
        bootstrap.advance(Reply::Page("<html><body>gone</body></html>".to_string()));
    assert_eq!(command, Command::Abort(Failure::Shape));
    assert_eq!(bootstrap.phase(), Phase::Aborted(Failure::Shape));
}

#[test]
fn reply_out_of_turn_aborts() {
    let (bootstrap, _) = Bootstrap::new(remote());
    let (bootstrap, command) = bootstrap.advance(Reply::Page(LISTING_PAGE.to_string()));
    assert_eq!(command, Command::Abort(Failure::OutOfTurn));
    assert_eq!(bootstrap.phase(), Phase::Aborted(Failure::OutOfTurn));

    let (bootstrap, _) = Bootstrap::new(remote());
    let (bootstrap, _) = bootstrap.advance(Reply::Done);
    let (_, command) = bootstrap.advance(Reply::Done);
    assert_eq!(command, Command::Abort(Failure::OutOfTurn));

    let (bootstrap, _) = Bootstrap::new(remote());
    let (bootstrap, _) = bootstrap.advance(Reply::Done);
    let (_, command) = bootstrap.accept(Input::Source("x".to_string()));
    assert_eq!(command, Command::Abort(Failure::OutOfTurn));

    let (bootstrap, _) = Bootstrap::new(remote());
    let (bootstrap, _) = bootstrap.advance(Reply::Done);
    let (bootstrap, _) = bootstrap.accept(Input::Listing(texts(&["A"])));
    let (_, command) = bootstrap.accept(Input::Done);
    assert_eq!(command, Command::Abort(Failure::OutOfTurn));
}

#[test]
fn ready_mirror_stays_ready() {
    let (bootstrap, _) = Bootstrap::new(remote());
    let (bootstrap, _) = bootstrap.advance(Reply::Done);
    let (bootstrap, _) = bootstrap.accept(Input::Listing(texts(&["A"])));
    let (bootstrap, _) = bootstrap.accept(Input::Source("a".to_string()));
    let (bootstrap, command) = bootstrap.accept(Input::Done);
    assert_eq!(command, Command::Watch);
    let (bootstrap, command) = bootstrap.advance(Reply::Failed(Failure::Transport));
    assert_eq!(command, Command::Watch);
    let (bootstrap, command) = bootstrap.advance(Reply::Page(String::new()));
    assert_eq!(command, Command::Watch);
    assert_eq!(bootstrap.phase(), Phase::Ready);
    assert_eq!(bootstrap.whitelist().names(), &texts(&["A.lua"]));
}

#[test]
fn unfinished_bootstrap_gives_no_whitelist() {
    let (bootstrap, _) = Bootstrap::new(remote());
    assert!(matches!(bootstrap.finish(), Err(Failure::OutOfTurn)));
    let (bootstrap, _) = Bootstrap::new(remote());
    let (bootstrap, _) = bootstrap.advance(Reply::Done);
    let (bootstrap, _) = bootstrap.accept(Input::Listing(texts(&["A"])));
    assert!(matches!(bootstrap.finish(), Err(Failure::OutOfTurn)));
}

#[test]
fn cloned_commands_replies_and_inputs_are_the_same() {
    let reset = Command::Reset { directory: "d".to_string(), sentinel: "d/s".to_string() };
    let abort = Command::Abort(Failure::Shape);
    for command in [reset, fetch("u"), store("p", "c"), Command::Watch, abort] {
        assert_eq!(command.clone(), command);
    }
    for reply in [Reply::Done, Reply::Page("p".to_string()), Reply::Failed(Failure::Storage)] {
        assert_eq!(reply.clone(), reply);
    }
    for input in [
        Input::Done,
        Input::Listing(texts(&["A", "B"])),
        Input::Source("s".to_string()),
        Input::Failed(Failure::Transport),
    ] {
        assert_eq!(input.clone(), input);
    }
}
