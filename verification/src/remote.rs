//! The addresses of the remote service, and the body of the request that
//! pushes a file.

use vstd::prelude::*;

verus! {

/// The remote service and the project that is open on it.
pub struct Remote {
    base_url: String,
    project: String,
}

/// What a `Remote` stands for: the two texts that every address is made of.
pub struct RemoteView {
    pub base_url: Seq<char>,
    pub project: Seq<char>,
}

impl View for Remote {
    type V = RemoteView;

    closed spec fn view(&self) -> RemoteView {
        RemoteView { base_url: self.base_url@, project: self.project@ }
    }
}

/// The address of a page of a project: `{base}/projects/{project}/{leaf}`.
pub open spec fn address(remote: RemoteView, leaf: Seq<char>) -> Seq<char> {
    remote.base_url + "/projects/"@ + remote.project + "/"@ + leaf
}

/// The page that lists the files of the project.
pub open spec fn listing_address(remote: RemoteView) -> Seq<char> {
    address(remote, "Main"@)
}

/// The page that shows one file of the project in the editor.
pub open spec fn file_address(remote: RemoteView, basename: Seq<char>) -> Seq<char> {
    address(remote, basename)
}

/// The address that takes the new content of a file.
pub open spec fn update_address(remote: RemoteView) -> Seq<char> {
    address(remote, "__update"@)
}

/// The address that restarts the running program.
pub open spec fn restart_address(remote: RemoteView) -> Seq<char> {
    address(remote, "__restart"@)
}

/// What `json::stringify` writes for an object of two members whose values
/// are texts, the members in the order given.
pub uninterp spec fn json_object_text(
    first_key: Seq<char>,
    first: Seq<char>,
    second_key: Seq<char>,
    second: Seq<char>,
) -> Seq<char>;

/// The body of the request that pushes `contents` as the new content of the
/// remote file `basename`: a JSON object whose member `file` is the basename
/// and whose member `contents` is the content.
pub open spec fn push_body_text(basename: Seq<char>, contents: Seq<char>) -> Seq<char> {
    json_object_text("file"@, basename, "contents"@, contents)
}

/// Calls `json::stringify` on a `json::JsonValue::Object` that holds the two
/// members, inserted in the order given, each value as a JSON string. The
/// text that comes back depends on the four arguments alone.
#[verifier::external_body]
fn stringify_pair(first_key: &str, first: &str, second_key: &str, second: &str) -> (text: String)
    ensures
        text@ == json_object_text(first_key@, first@, second_key@, second@),
{
    let mut object = json::object::Object::with_capacity(2);
    object.insert(first_key, first.into());
    object.insert(second_key, second.into());
    json::stringify(json::JsonValue::Object(object))
}

/// The body of the request that pushes `contents` as the new content of the
/// remote file `basename`.
pub fn push_body(basename: &str, contents: &str) -> (body: String)
    ensures
        body@ == push_body_text(basename@, contents@),
{
    stringify_pair("file", basename, "contents", contents)
}

impl Remote {
    /// The project `project` on the service at `base_url`.
    pub fn new(base_url: String, project: String) -> (remote: Remote)
        ensures
            remote@ == (RemoteView { base_url: base_url@, project: project@ }),
    {
        Remote { base_url, project }
    }

    /// The address of the service.
    pub fn base_url(&self) -> (base_url: &str)
        ensures
            base_url@ == self@.base_url,
    {
        self.base_url.as_str()
    }

    /// The name of the open project.
    pub fn project(&self) -> (project: &str)
        ensures
            project@ == self@.project,
    {
        self.project.as_str()
    }

    fn page(&self, leaf: &str) -> (url: String)
        ensures
            url@ == address(self@, leaf@),
    {
        let mut url = self.base_url.clone();
        url.append("/projects/");
        url.append(self.project.as_str());
        url.append("/");
        url.append(leaf);
        url
    }

    /// The address of the page that lists the files of the project.
    pub fn listing_url(&self) -> (url: String)
        ensures
            url@ == listing_address(self@),
    {
        self.page("Main")
    }

    /// The address of the page that shows the remote file `basename`.
    pub fn file_url(&self, basename: &str) -> (url: String)
        ensures
            url@ == file_address(self@, basename@),
    {
        self.page(basename)
    }

    /// The address to which the new content of a file is posted.
    pub fn update_url(&self) -> (url: String)
        ensures
            url@ == update_address(self@),
    {
        self.page("__update")
    }

    /// The address whose retrieval restarts the running program.
    pub fn restart_url(&self) -> (url: String)
        ensures
            url@ == restart_address(self@),
    {
        self.page("__restart")
    }
}

} // verus!
