//! The tools offered to the model (list, read and write files, run a shell
//! command) and the rules they follow: paths stay relative and inside the
//! working directory, and every write and command waits for the user.
use vstd::prelude::*;

use crate::order::{insert_by, lemma_insert_by_at, lemma_sort_by, lex_le, lex_le_str, sort_by, sorted_by};
use crate::text::{chars_of, join_path, join_with, joined, owned, path_join, push_char, push_decimal, decimal};

verus! {

/// A tool call requested by the model: its id, the tool's name and the
/// JSON text of its arguments.
pub struct ToolCall {
    pub id: String,
    pub name: String,
    pub arguments: String,
}

/// A tool call as text.
pub struct CallView {
    pub id: Seq<char>,
    pub name: Seq<char>,
    pub arguments: Seq<char>,
}

impl View for ToolCall {
    type V = CallView;

    open spec fn view(&self) -> CallView {
        CallView { id: self.id@, name: self.name@, arguments: self.arguments@ }
    }
}

/// A call with every field empty.
pub open spec fn empty_call() -> CallView {
    CallView { id: seq![], name: seq![], arguments: seq![] }
}

/// The views of a list of calls.
pub open spec fn calls_view(calls: Seq<ToolCall>) -> Seq<CallView> {
    calls.map_values(|c: ToolCall| c@)
}

impl ToolCall {
    /// A call with every field empty.
    pub fn empty() -> (r: ToolCall)
        ensures
            r@ == empty_call(),
    {
        ToolCall { id: String::new(), name: String::new(), arguments: String::new() }
    }

    /// A copy of this call.
    pub fn duplicate(&self) -> (r: ToolCall)
        ensures
            r@ == self@,
    {
        ToolCall { id: self.id.clone(), name: self.name.clone(), arguments: self.arguments.clone() }
    }
}

impl Default for ToolCall {
    fn default() -> (r: ToolCall)
        ensures
            r@ == empty_call(),
    {
        ToolCall::empty()
    }
}

/// Copies of `calls`, in order.
pub fn copy_calls(calls: &[ToolCall]) -> (r: Vec<ToolCall>)
    ensures
        calls_view(r@) == calls_view(calls@),
{
    let mut r: Vec<ToolCall> = Vec::new();
    for i in 0..calls.len()
        invariant
            r@.len() == i,
            forall|j: int| 0 <= j < i ==> (#[trigger] r@[j])@ == calls@[j]@,
    {
        r.push(calls[i].duplicate());
    }
    assert(calls_view(r@) =~= calls_view(calls@));
    r
}

/// The string arguments of a tool call, as read from its JSON object (an
/// argument that is missing or not a string is absent).
pub struct ToolArguments {
    pub path: Option<String>,
    pub content: Option<String>,
    pub command: Option<String>,
}

/// Tool arguments as text.
pub struct ArgsView {
    pub path: Option<Seq<char>>,
    pub content: Option<Seq<char>>,
    pub command: Option<Seq<char>>,
}

/// The text of an optional string.
pub open spec fn text_of(s: Option<String>) -> Option<Seq<char>> {
    match s {
        Some(t) => Some(t@),
        None => None,
    }
}

impl View for ToolArguments {
    type V = ArgsView;

    open spec fn view(&self) -> ArgsView {
        ArgsView {
            path: text_of(self.path),
            content: text_of(self.content),
            command: text_of(self.command),
        }
    }
}

/// What `serde_json` reads from a call's argument text: the string fields
/// `path`, `content` and `command` (a field that is missing, or is not a
/// string, or belongs to a value that is not an object, is absent), or the
/// parser's message when the text is not JSON.
pub uninterp spec fn json_arguments(text: Seq<char>) -> Result<ArgsView, Seq<char>>;

/// Calls `serde_json::from_str` to read the text as a JSON value, then
/// takes `as_str` of its `path`, `content` and `command` fields; claimed:
/// the arguments are `json_arguments` of the text, and an error carries
/// the parser's message exactly when `json_arguments` is an error.
#[verifier::external_body]
pub(crate) fn parse_arguments(text: &str) -> (r: Result<ToolArguments, String>)
    ensures
        match json_arguments(text@) {
            Ok(a) => r matches Ok(x) && x@ == a,
            Err(e) => r matches Err(m) && m@ == e,
        },
{
    match serde_json::from_str::<serde_json::Value>(text) {
        Ok(v) => Ok(ToolArguments {
            path: v["path"].as_str().map(String::from),
            content: v["content"].as_str().map(String::from),
            command: v["command"].as_str().map(String::from),
        }),
        Err(e) => Err(e.to_string()),
    }
}

/// What a tool call asks for, once its arguments are checked.
pub enum ToolRequest {
    ListFiles { path: String },
    ReadFile { path: String },
    WriteFile { path: String, content: String },
    RunShell { command: String },
}

/// A tool request as text.
pub enum RequestView {
    ListFiles(Seq<char>),
    ReadFile(Seq<char>),
    WriteFile(Seq<char>, Seq<char>),
    RunShell(Seq<char>),
}

impl View for ToolRequest {
    type V = RequestView;

    open spec fn view(&self) -> RequestView {
        match self {
            ToolRequest::ListFiles { path } => RequestView::ListFiles(path@),
            ToolRequest::ReadFile { path } => RequestView::ReadFile(path@),
            ToolRequest::WriteFile { path, content } => RequestView::WriteFile(path@, content@),
            ToolRequest::RunShell { command } => RequestView::RunShell(command@),
        }
    }
}

/// Why a tool call failed (apart from failures of the file system or of
/// the JSON arguments).
#[derive(Debug)]
pub enum ToolError {
    MissingPath,
    MissingContent,
    MissingCommand,
    UnknownTool(String),
    NotRelative,
    OutsideWorkspace,
    NotAFile,
    TooLarge,
    InvalidPath,
    /// The arguments are not valid JSON: the parser's message.
    InvalidArguments(String),
}

/// A tool error as plain values.
pub enum ErrorView {
    MissingPath,
    MissingContent,
    MissingCommand,
    UnknownTool(Seq<char>),
    NotRelative,
    OutsideWorkspace,
    NotAFile,
    TooLarge,
    InvalidPath,
    InvalidArguments(Seq<char>),
}

impl View for ToolError {
    type V = ErrorView;

    open spec fn view(&self) -> ErrorView {
        match self {
            ToolError::MissingPath => ErrorView::MissingPath,
            ToolError::MissingContent => ErrorView::MissingContent,
            ToolError::MissingCommand => ErrorView::MissingCommand,
            ToolError::UnknownTool(name) => ErrorView::UnknownTool(name@),
            ToolError::NotRelative => ErrorView::NotRelative,
            ToolError::OutsideWorkspace => ErrorView::OutsideWorkspace,
            ToolError::NotAFile => ErrorView::NotAFile,
            ToolError::TooLarge => ErrorView::TooLarge,
            ToolError::InvalidPath => ErrorView::InvalidPath,
            ToolError::InvalidArguments(m) => ErrorView::InvalidArguments(m@),
        }
    }
}

/// The text of a tool error.
pub open spec fn error_text(e: ErrorView) -> Seq<char> {
    match e {
        ErrorView::MissingPath => "path is required"@,
        ErrorView::MissingContent => "content is required"@,
        ErrorView::MissingCommand => "command is required"@,
        ErrorView::UnknownTool(name) => "unknown tool: "@ + name,
        ErrorView::NotRelative => "path must be relative"@,
        ErrorView::OutsideWorkspace => "path is outside the working directory"@,
        ErrorView::NotAFile => "path is not a file"@,
        ErrorView::TooLarge => "file is larger than 1 MB"@,
        ErrorView::InvalidPath => "invalid path"@,
        ErrorView::InvalidArguments(m) => m,
    }
}

impl ToolError {
    /// The text shown for this error.
    pub fn message(&self) -> (r: String)
        ensures
            r@ == error_text(self@),
    {
        match self {
            ToolError::MissingPath => owned("path is required"),
            ToolError::MissingContent => owned("content is required"),
            ToolError::MissingCommand => owned("command is required"),
            ToolError::UnknownTool(name) => {
                let mut s = owned("unknown tool: ");
                s.append(name.as_str());
                s
            },
            ToolError::NotRelative => owned("path must be relative"),
            ToolError::OutsideWorkspace => owned("path is outside the working directory"),
            ToolError::NotAFile => owned("path is not a file"),
            ToolError::TooLarge => owned("file is larger than 1 MB"),
            ToolError::InvalidPath => owned("invalid path"),
            ToolError::InvalidArguments(m) => m.clone(),
        }
    }
}

/// The request that a call to the tool `name` with arguments `a` makes:
/// `list_files` lists `path` (the working directory when absent),
/// `read_file` needs a path, `write_file` a path and then a content, and
/// `run_shell` a command; any other name is unknown.
pub open spec fn planned(name: Seq<char>, a: ArgsView) -> Result<RequestView, ErrorView> {
    if name == "list_files"@ {
        Ok(
            RequestView::ListFiles(
                match a.path {
                    Some(p) => p,
                    None => "."@,
                },
            ),
        )
    } else if name == "read_file"@ {
        match a.path {
            Some(p) => Ok(RequestView::ReadFile(p)),
            None => Err(ErrorView::MissingPath),
        }
    } else if name == "write_file"@ {
        match a.path {
            None => Err(ErrorView::MissingPath),
            Some(p) => match a.content {
                None => Err(ErrorView::MissingContent),
                Some(c) => Ok(RequestView::WriteFile(p, c)),
            },
        }
    } else if name == "run_shell"@ {
        match a.command {
            Some(c) => Ok(RequestView::RunShell(c)),
            None => Err(ErrorView::MissingCommand),
        }
    } else {
        Err(ErrorView::UnknownTool(name))
    }
}

fn copy_opt(s: &Option<String>) -> (r: Option<String>)
    ensures
        text_of(r) == text_of(*s),
{
    match s {
        Some(t) => Some(t.clone()),
        None => None,
    }
}

/// Reads a tool call: which tool, with which arguments.
pub fn plan(name: &str, args: &ToolArguments) -> (r: Result<ToolRequest, ToolError>)
    ensures
        match planned(name@, args@) {
            Ok(q) => r matches Ok(req) && req@ == q,
            Err(e) => r matches Err(err) && err@ == e,
        },
{
    if crate::text::str_equals(name, "list_files") {
        let path = match &args.path {
            Some(p) => p.clone(),
            None => owned("."),
        };
        Ok(ToolRequest::ListFiles { path })
    } else if crate::text::str_equals(name, "read_file") {
        match &args.path {
            Some(p) => Ok(ToolRequest::ReadFile { path: p.clone() }),
            None => Err(ToolError::MissingPath),
        }
    } else if crate::text::str_equals(name, "write_file") {
        match &args.path {
            None => Err(ToolError::MissingPath),
            Some(p) => match &args.content {
                None => Err(ToolError::MissingContent),
                Some(c) => Ok(ToolRequest::WriteFile { path: p.clone(), content: c.clone() }),
            },
        }
    } else if crate::text::str_equals(name, "run_shell") {
        match &args.command {
            Some(c) => Ok(ToolRequest::RunShell { command: c.clone() }),
            None => Err(ToolError::MissingCommand),
        }
    } else {
        Err(ToolError::UnknownTool(owned(name)))
    }
}

/// A tool as it is offered to the model: its name, what it does, its
/// parameters (all strings) and which of them it requires.
pub struct ToolDefinition {
    pub name: String,
    pub description: String,
    pub parameters: Vec<String>,
    pub required: Vec<String>,
}

/// A tool definition as text.
pub struct DefinitionView {
    pub name: Seq<char>,
    pub description: Seq<char>,
    pub parameters: Seq<Seq<char>>,
    pub required: Seq<Seq<char>>,
}

/// The texts of a list of strings.
pub open spec fn texts(v: Seq<String>) -> Seq<Seq<char>> {
    v.map_values(|s: String| s@)
}

impl View for ToolDefinition {
    type V = DefinitionView;

    open spec fn view(&self) -> DefinitionView {
        DefinitionView {
            name: self.name@,
            description: self.description@,
            parameters: texts(self.parameters@),
            required: texts(self.required@),
        }
    }
}

/// The four tools, in the order they are offered.
pub open spec fn tool_specs() -> Seq<DefinitionView> {
    seq![
        DefinitionView {
            name: "list_files"@,
            description: "List entries in a directory inside the working directory."@,
            parameters: seq!["path"@],
            required: seq![],
        },
        DefinitionView {
            name: "run_shell"@,
            description: "Run a shell command from the working directory. The user must approve every command. Commands can access outside the working directory, so use only when necessary."@,
            parameters: seq!["command"@],
            required: seq!["command"@],
        },
        DefinitionView {
            name: "read_file"@,
            description: "Read a UTF-8 text file inside the working directory."@,
            parameters: seq!["path"@],
            required: seq!["path"@],
        },
        DefinitionView {
            name: "write_file"@,
            description: "Write a UTF-8 text file inside the working directory. The user must approve every write."@,
            parameters: seq!["path"@, "content"@],
            required: seq!["path"@, "content"@],
        },
    ]
}

fn strings(a: &str, b: Option<&str>) -> (r: Vec<String>)
    ensures
        texts(r@) == match b {
            Some(t) => seq![a@, t@],
            None => seq![a@],
        },
{
    let mut r: Vec<String> = Vec::new();
    r.push(owned(a));
    match b {
        Some(t) => r.push(owned(t)),
        None => {},
    }
    assert(texts(r@) =~= match b {
        Some(t) => seq![a@, t@],
        None => seq![a@],
    });
    r
}

/// The tools offered to the model.
pub fn definitions() -> (r: Vec<ToolDefinition>)
    ensures
        r@.map_values(|d: ToolDefinition| d@) == tool_specs(),
{
    let mut r: Vec<ToolDefinition> = Vec::new();
    let none: Vec<String> = Vec::new();
    assert(texts(none@) =~= Seq::<Seq<char>>::empty());
    r.push(
        ToolDefinition {
            name: owned("list_files"),
            description: owned("List entries in a directory inside the working directory."),
            parameters: strings("path", None),
            required: none,
        },
    );
    r.push(
        ToolDefinition {
            name: owned("run_shell"),
            description: owned(
                "Run a shell command from the working directory. The user must approve every command. Commands can access outside the working directory, so use only when necessary.",
            ),
            parameters: strings("command", None),
            required: strings("command", None),
        },
    );
    r.push(
        ToolDefinition {
            name: owned("read_file"),
            description: owned("Read a UTF-8 text file inside the working directory."),
            parameters: strings("path", None),
            required: strings("path", None),
        },
    );
    r.push(
        ToolDefinition {
            name: owned("write_file"),
            description: owned(
                "Write a UTF-8 text file inside the working directory. The user must approve every write.",
            ),
            parameters: strings("path", Some("content")),
            required: strings("path", Some("content")),
        },
    );
    assert(r@.map_values(|d: ToolDefinition| d@) =~= tool_specs());
    r
}

/// Whether the argument named `p` is present.
pub open spec fn present(a: ArgsView, p: Seq<char>) -> bool {
    if p == "path"@ {
        a.path is Some
    } else if p == "content"@ {
        a.content is Some
    } else if p == "command"@ {
        a.command is Some
    } else {
        false
    }
}

/// The tools offered are the tools that run: a call to an offered tool is
/// accepted exactly when every parameter it is declared to require is
/// present, and every required parameter is a declared parameter.
pub proof fn lemma_definitions_match_plan(k: int, a: ArgsView)
    requires
        0 <= k < tool_specs().len(),
    ensures
        planned(tool_specs()[k].name, a) is Ok <==> forall|j: int|
            0 <= j < tool_specs()[k].required.len() ==> present(
                a,
                #[trigger] tool_specs()[k].required[j],
            ),
        forall|j: int|
            0 <= j < tool_specs()[k].required.len() ==> tool_specs()[k].parameters.contains(
                #[trigger] tool_specs()[k].required[j],
            ),
{
    reveal_strlit("list_files");
    reveal_strlit("run_shell");
    reveal_strlit("read_file");
    reveal_strlit("write_file");
    reveal_strlit("path");
    reveal_strlit("content");
    reveal_strlit("command");
    assert("command"@[2] != "content"@[2]);
    assert("command"@ != "content"@);
    assert("write_file"@[0] != "list_files"@[0]);
    assert("write_file"@ != "list_files"@);
    assert("run_shell"@[1] != "read_file"@[1]);
    assert("run_shell"@ != "read_file"@);
    let d = tool_specs()[k];
    let req = d.required;
    if k == 0 {
        assert(d.name == "list_files"@);
        assert(req.len() == 0);
    } else if k == 1 {
        assert(d.name == "run_shell"@);
        assert(req =~= seq!["command"@]);
        assert(d.parameters =~= seq!["command"@]);
        assert(d.parameters[0] == "command"@);
        assert(present(a, "command"@) == a.command is Some);
        assert(planned(d.name, a) is Ok == a.command is Some);
    } else if k == 2 {
        assert(d.name == "read_file"@);
        assert(req =~= seq!["path"@]);
        assert(d.parameters =~= seq!["path"@]);
        assert(d.parameters[0] == "path"@);
        assert(present(a, "path"@) == a.path is Some);
        assert(planned(d.name, a) is Ok == a.path is Some);
    } else {
        assert(d.name == "write_file"@);
        assert(req =~= seq!["path"@, "content"@]);
        assert(d.parameters =~= seq!["path"@, "content"@]);
        assert(d.parameters[0] == "path"@);
        assert(d.parameters[1] == "content"@);
        assert(present(a, "path"@) == a.path is Some);
        assert(present(a, "content"@) == a.content is Some);
        assert(planned(d.name, a) is Ok == (a.path is Some && a.content is Some));
        if a.path is Some && a.content is Some {
            assert forall|j: int| 0 <= j < req.len() implies present(a, #[trigger] req[j]) by {
                if j == 0 {
                    assert(req[j] == "path"@);
                } else {
                    assert(req[j] == "content"@);
                }
            }
        } else if a.path is None {
            assert(!present(a, req[0]));
        } else {
            assert(!present(a, req[1]));
        }
    }
}

/// No `..` component starts at `i`.
pub open spec fn parent_component_at(s: Seq<char>, i: int) -> bool {
    &&& 0 <= i
    &&& i + 2 <= s.len()
    &&& s[i] == '.'
    &&& s[i + 1] == '.'
    &&& (i == 0 || s[i - 1] == '/')
    &&& (i + 2 == s.len() || s[i + 2] == '/')
}

/// A relative path that stays below where it starts: it does not begin at
/// the root `/` and has no `..` component (on Unix these are the only
/// components besides plain names and `.`).
pub open spec fn is_relative(s: Seq<char>) -> bool {
    &&& !(s.len() > 0 && s[0] == '/')
    &&& forall|i: int| !parent_component_at(s, i)
}

/// A name that is not `..` and holds no `/` is a relative path on its own.
proof fn lemma_name_is_relative(name: Seq<char>)
    requires
        forall|i: int| 0 <= i < name.len() ==> name[i] != '/',
        name != ".."@,
    ensures
        is_relative(name),
{
    reveal_strlit("..");
    assert forall|i: int| !parent_component_at(name, i) by {
        if parent_component_at(name, i) {
            assert(i == 0);
            assert(name.len() == 2);
            assert(name =~= ".."@);
        }
    }
}

/// Two relative paths joined by `/` make a relative path, when the first
/// is not empty.
proof fn lemma_join_relative(a: Seq<char>, b: Seq<char>)
    requires
        a.len() > 0,
        is_relative(a),
        is_relative(b),
    ensures
        is_relative(a + seq!['/'] + b),
{
    let s = a + seq!['/'] + b;
    let n = a.len() as int;
    assert(s[0] == a[0]);
    assert forall|i: int| !parent_component_at(s, i) by {
        if parent_component_at(s, i) {
            if i + 2 <= n {
                assert(s[i] == a[i] && s[i + 1] == a[i + 1]);
                if i > 0 {
                    assert(s[i - 1] == a[i - 1]);
                }
                if i + 2 < n {
                    assert(s[i + 2] == a[i + 2]);
                }
                assert(parent_component_at(a, i));
            } else if i == n - 1 {
                assert(s[i + 1] == '/');
            } else if i == n {
                assert(s[i] == '/');
            } else {
                let j = i - n - 1;
                assert(s[i] == b[j] && s[i + 1] == b[j + 1]);
                if j > 0 {
                    assert(s[i - 1] == b[j - 1]);
                }
                if j + 2 < b.len() {
                    assert(s[i + 2] == b[j + 2]);
                }
                assert(parent_component_at(b, j));
            }
        }
    }
}

/// Any path made of names joined by `/` is accepted as relative, whatever
/// characters the names start with (`.gitignore`, `.github/ci.yml`,
/// `./a`), so long as no name is empty, none is `..`, and none holds a
/// `/`.
pub proof fn lemma_plain_paths_are_relative(names: Seq<Seq<char>>)
    requires
        names.len() > 0,
        forall|k: int|
            0 <= k < names.len() ==> (#[trigger] names[k]).len() > 0 && names[k] != ".."@ && (
            forall|i: int| 0 <= i < names[k].len() ==> names[k][i] != '/'),
    ensures
        is_relative(joined(names, '/')),
        joined(names, '/').len() > 0,
    decreases names.len(),
{
    if names.len() == 1 {
        lemma_name_is_relative(names[0]);
    } else {
        let init = names.drop_last();
        assert forall|k: int| 0 <= k < init.len() implies (#[trigger] init[k]).len() > 0 && init[k]
            != ".."@ && (forall|i: int| 0 <= i < init[k].len() ==> init[k][i] != '/') by {
            assert(init[k] == names[k]);
        }
        lemma_plain_paths_are_relative(init);
        let last = names[names.len() - 1];
        lemma_name_is_relative(last);
        lemma_join_relative(joined(init, '/'), last);
    }
}

/// A path is refused when it starts at the root, or when it holds a `..`
/// component anywhere: at its start or after a `/`, and followed by a `/`
/// or by its end.
pub proof fn lemma_escaping_paths_are_refused(a: Seq<char>, b: Seq<char>)
    requires
        b.len() == 0 || b[0] == '/',
    ensures
        !is_relative(seq!['/'] + a),
        !is_relative(".."@ + b),
        !is_relative(a + "/.."@ + b),
{
    reveal_strlit("..");
    reveal_strlit("/..");
    assert((seq!['/'] + a)[0] == '/');
    let p = ".."@ + b;
    assert(p[0] == '.' && p[1] == '.');
    if b.len() > 0 {
        assert(p[2] == b[0]);
    }
    assert(parent_component_at(p, 0));
    let q = a + "/.."@ + b;
    let n = a.len() as int;
    assert(q[n] == '/' && q[n + 1] == '.' && q[n + 2] == '.');
    if b.len() > 0 {
        assert(q[n + 3] == b[0]);
    }
    assert(parent_component_at(q, n + 1));
}

/// Accepts a path from the model only when it is relative and never goes
/// up with `..`.
pub fn relative_path(input: &str) -> (r: Result<&str, ToolError>)
    ensures
        is_relative(input@) ==> (r matches Ok(p) && p@ == input@),
        !is_relative(input@) ==> r matches Err(ToolError::NotRelative),
{
    let v = chars_of(input);
    let n = v.len();
    if n > 0 && v[0] == '/' {
        return Err(ToolError::NotRelative);
    }
    let mut i: usize = 0;
    while i < n
        invariant
            v@ == input@,
            n == v.len(),
            forall|j: int| 0 <= j < i ==> !parent_component_at(v@, j),
        decreases n - i,
    {
        if i + 1 < n && v[i] == '.' && v[i + 1] == '.' && (i == 0 || v[i - 1] == '/') && (i + 2
            == n || v[i + 2] == '/') {
            assert(parent_component_at(v@, i as int));
            return Err(ToolError::NotRelative);
        }
        i = i + 1;
    }
    Ok(input)
}

/// `Path::starts_with`: whether the components of `base` begin those of
/// `path`.
pub uninterp spec fn path_starts_with(path: Seq<char>, base: Seq<char>) -> bool;

/// `Path::strip_prefix`: what is left of `path` after `base`.
pub uninterp spec fn path_strip_prefix(path: Seq<char>, base: Seq<char>) -> Seq<char>;

/// `Path::parent`: `path` without its last component.
pub uninterp spec fn path_parent(path: Seq<char>) -> Option<Seq<char>>;

/// `Path::file_name`: the last component of `path`, when it is a name.
pub uninterp spec fn path_file_name(path: Seq<char>) -> Option<Seq<char>>;

/// One plain component of a Unix path: not empty, without `/`, and
/// neither `.` nor `..`.
pub open spec fn plain_name(name: Seq<char>) -> bool {
    &&& name.len() > 0
    &&& forall|i: int| 0 <= i < name.len() ==> name[i] != '/'
    &&& name != "."@
    &&& name != ".."@
}

/// Calls `Path::starts_with`; the answer is whatever it gives for these
/// two paths, with nothing more said of how it compares them.
#[verifier::external_body]
fn starts_with(path: &str, base: &str) -> (r: bool)
    ensures
        r == path_starts_with(path@, base@),
{
    std::path::Path::new(path).starts_with(base)
}

/// Calls `Path::strip_prefix`, which fails exactly when `starts_with` says
/// no; what it leaves is named, not stated.
#[verifier::external_body]
fn strip_prefix(path: &str, base: &str) -> (r: Option<String>)
    ensures
        r is Some <==> path_starts_with(path@, base@),
        r matches Some(rest) ==> rest@ == path_strip_prefix(path@, base@),
{
    std::path::Path::new(path).strip_prefix(base).ok().map(|rest| rest.display().to_string())
}

/// Calls `Path::parent`; its result is named, not stated.
#[verifier::external_body]
fn parent(path: &str) -> (r: Option<String>)
    ensures
        text_of(r) == path_parent(path@),
{
    std::path::Path::new(path).parent().map(|p| p.display().to_string())
}

/// Calls `Path::file_name`; its result is named, and claimed to be, when
/// there is one, a single plain component (the final component of the
/// path when that is a normal name; `..` and the root give none).
#[verifier::external_body]
fn file_name(path: &str) -> (r: Option<String>)
    ensures
        text_of(r) == path_file_name(path@),
        r matches Some(n) ==> plain_name(n@),
{
    std::path::Path::new(path).file_name().map(|n| n.to_string_lossy().into_owned())
}

/// The directory the tools work in, as a canonical absolute path.
pub struct Workspace {
    root: String,
}

impl Workspace {
    /// The working directory's path.
    pub closed spec fn root_path(&self) -> Seq<char> {
        self.root@
    }

    /// A workspace rooted at `root` (the canonical working directory).
    pub fn new(root: String) -> (w: Workspace)
        ensures
            w.root_path() == root@,
    {
        Workspace { root }
    }

    /// The working directory's path.
    pub fn root(&self) -> (r: &str)
        ensures
            r@ == self.root_path(),
    {
        self.root.as_str()
    }

    /// A path below the working directory, before it is resolved.
    pub fn join(&self, relative: &str) -> (r: String)
        ensures
            r@ == path_join(self.root_path(), relative@),
    {
        join_path(self.root.as_str(), relative)
    }

    /// Accepts a resolved path only when it lies inside the working
    /// directory.
    pub fn check_inside(&self, path: &str) -> (r: Result<(), ToolError>)
        ensures
            r is Ok <==> path_starts_with(path@, self.root_path()),
            r matches Err(e) ==> e is OutsideWorkspace,
    {
        if starts_with(path, self.root.as_str()) {
            Ok(())
        } else {
            Err(ToolError::OutsideWorkspace)
        }
    }

    /// How a path is shown: relative to the working directory when it lies
    /// inside it, else in full.
    pub fn display_path(&self, path: &str) -> (r: String)
        ensures
            r@ == shown_path(self.root_path(), path@),
    {
        match strip_prefix(path, self.root.as_str()) {
            Some(rest) => rest,
            None => owned(path),
        }
    }
}

/// How `path` is shown from the working directory `root`.
pub open spec fn shown_path(root: Seq<char>, path: Seq<char>) -> Seq<char> {
    if path_starts_with(path, root) {
        path_strip_prefix(path, root)
    } else {
        path
    }
}

/// A directory entry: its name and whether it is a directory.
pub struct DirEntry {
    pub name: String,
    pub is_dir: bool,
}

/// How an entry is listed: directories end with `/`.
pub open spec fn entry_label(name: Seq<char>, is_dir: bool) -> Seq<char> {
    if is_dir {
        name + seq!['/']
    } else {
        name
    }
}

/// The labels of a list of entries.
pub open spec fn labels(entries: Seq<(Seq<char>, bool)>) -> Seq<Seq<char>> {
    entries.map_values(|e: (Seq<char>, bool)| entry_label(e.0, e.1))
}

/// The entries as plain values.
pub open spec fn entries_view(entries: Seq<DirEntry>) -> Seq<(Seq<char>, bool)> {
    entries.map_values(|e: DirEntry| (e.name@, e.is_dir))
}

/// A label is its own sort key.
pub open spec fn label_key() -> spec_fn(Seq<char>) -> Seq<char> {
    |t: Seq<char>| t
}

/// `s` in `String`'s order.
pub open spec fn sorted_labels(s: Seq<Seq<char>>) -> Seq<Seq<char>> {
    sort_by(s, label_key())
}

/// The most entries a listing shows.
pub const MAX_DIRECTORY_ENTRIES: usize = 200;

/// The listing of a directory: the labels in order, at most
/// `MAX_DIRECTORY_ENTRIES` of them followed by a note when there were
/// more, one per line.
pub open spec fn listing_text(entries: Seq<(Seq<char>, bool)>) -> Seq<char> {
    let sorted = sorted_labels(labels(entries));
    let shown = if sorted.len() > MAX_DIRECTORY_ENTRIES {
        sorted.take(MAX_DIRECTORY_ENTRIES as int).push("... (directory listing truncated)"@)
    } else {
        sorted
    };
    joined(shown, '\n')
}

fn insert_label(out: &mut Vec<String>, x: String)
    ensures
        texts(final(out)@) == insert_by(x@, texts(old(out)@), label_key()),
{
    let mut j: usize = 0;
    let ghost s = texts(out@);
    while j < out.len() && !lex_le_str(x.as_str(), out[j].as_str())
        invariant
            j <= out.len(),
            s == texts(out@),
            forall|k: int| 0 <= k < j ==> !lex_le(x@, #[trigger] s[k]),
        decreases out.len() - j,
    {
        j = j + 1;
    }
    proof {
        lemma_insert_by_at(x@, s, label_key(), j as int);
    }
    let ghost xv = x@;
    out.insert(j, x);
    assert(texts(out@) =~= s.insert(j as int, xv));
}

/// Sorts the labels by `String`'s order.
fn sort_labels(v: &Vec<String>) -> (r: Vec<String>)
    ensures
        texts(r@) == sorted_labels(texts(v@)),
{
    let mut out: Vec<String> = Vec::new();
    let ghost s = texts(v@);
    assert(s.take(0) =~= Seq::<Seq<char>>::empty());
    for i in 0..v.len()
        invariant
            s == texts(v@),
            texts(out@) == sorted_labels(s.take(i as int)),
    {
        insert_label(&mut out, v[i].clone());
        assert(s.take(i + 1).drop_last() =~= s.take(i as int));
    }
    assert(s.take(v.len() as int) =~= s);
    out
}

/// The listing of a directory with these entries.
pub fn listing(entries: &Vec<DirEntry>) -> (r: String)
    ensures
        r@ == listing_text(entries_view(entries@)),
{
    let mut names: Vec<String> = Vec::new();
    for i in 0..entries.len()
        invariant
            names@.len() == i,
            forall|k: int|
                0 <= k < i ==> (#[trigger] names@[k])@ == entry_label(
                    entries@[k].name@,
                    entries@[k].is_dir,
                ),
    {
        let mut label = entries[i].name.clone();
        if entries[i].is_dir {
            push_char(&mut label, '/');
        }
        names.push(label);
    }
    assert(texts(names@) =~= labels(entries_view(entries@)));
    let mut sorted = sort_labels(&names);
    if sorted.len() > MAX_DIRECTORY_ENTRIES {
        let ghost all = texts(sorted@);
        sorted.truncate(MAX_DIRECTORY_ENTRIES);
        sorted.push(owned("... (directory listing truncated)"));
        assert(texts(sorted@) =~= all.take(MAX_DIRECTORY_ENTRIES as int).push(
            "... (directory listing truncated)"@,
        ));
    }
    join_with(&sorted, '\n')
}

/// The largest file `read_file` returns, in bytes.
pub const MAX_FILE_SIZE: u64 = 1_000_000;

/// Where a tool run stands: what it waits for, and what it carries.
pub enum Stage {
    /// Waits for the resolved directory to list.
    ListResolve,
    /// Waits for the directory's entries.
    ListRead,
    /// Waits for the resolved file to read.
    ReadResolve,
    /// Waits to learn whether `path` is a file.
    ReadIsFile { path: String },
    /// Waits for the size of `path`.
    ReadSize { path: String },
    /// Waits for the file's text.
    ReadText,
    /// Waits to learn whether `joined` exists.
    WriteExists { joined: String, content: String },
    /// Waits for the resolved existing file.
    WriteResolveExisting { content: String },
    /// Waits for the resolved parent directory of `joined`.
    WriteResolveParent { joined: String, content: String },
    /// Waits for the user's approval of the write.
    WriteConfirm { target: String, content: String },
    /// Waits for the write to be done.
    WriteDo { target: String, bytes: usize },
    /// Waits for the user's approval of the command.
    ShellConfirm { command: String },
    /// Waits for the command's output.
    ShellRun,
    /// Done.
    Finished,
}

/// A stage as plain values.
pub enum StageView {
    ListResolve,
    ListRead,
    ReadResolve,
    ReadIsFile { path: Seq<char> },
    ReadSize { path: Seq<char> },
    ReadText,
    WriteExists { joined: Seq<char>, content: Seq<char> },
    WriteResolveExisting { content: Seq<char> },
    WriteResolveParent { joined: Seq<char>, content: Seq<char> },
    WriteConfirm { target: Seq<char>, content: Seq<char> },
    WriteDo { target: Seq<char>, bytes: nat },
    ShellConfirm { command: Seq<char> },
    ShellRun,
    Finished,
}

impl View for Stage {
    type V = StageView;

    open spec fn view(&self) -> StageView {
        match self {
            Stage::ListResolve => StageView::ListResolve,
            Stage::ListRead => StageView::ListRead,
            Stage::ReadResolve => StageView::ReadResolve,
            Stage::ReadIsFile { path } => StageView::ReadIsFile { path: path@ },
            Stage::ReadSize { path } => StageView::ReadSize { path: path@ },
            Stage::ReadText => StageView::ReadText,
            Stage::WriteExists { joined, content } => StageView::WriteExists {
                joined: joined@,
                content: content@,
            },
            Stage::WriteResolveExisting { content } => StageView::WriteResolveExisting {
                content: content@,
            },
            Stage::WriteResolveParent { joined, content } => StageView::WriteResolveParent {
                joined: joined@,
                content: content@,
            },
            Stage::WriteConfirm { target, content } => StageView::WriteConfirm {
                target: target@,
                content: content@,
            },
            Stage::WriteDo { target, bytes } => StageView::WriteDo {
                target: target@,
                bytes: *bytes as nat,
            },
            Stage::ShellConfirm { command } => StageView::ShellConfirm { command: command@ },
            Stage::ShellRun => StageView::ShellRun,
            Stage::Finished => StageView::Finished,
        }
    }
}

/// What a tool run needs done next, outside the library.
pub enum ToolAction {
    /// Resolve `path` (`fs::canonicalize`); answer with `ToolEvent::Path`.
    Canonicalize { path: String },
    /// Whether `path` exists; answer with `ToolEvent::Answer`.
    CheckExists { path: String },
    /// List the directory `path`; answer with `ToolEvent::Entries`.
    ListDirectory { path: String },
    /// Whether `path` is a file; answer with `ToolEvent::Answer`.
    CheckIsFile { path: String },
    /// The size of `path` in bytes; answer with `ToolEvent::Size`.
    MeasureFile { path: String },
    /// The text of `path`; answer with `ToolEvent::Text`.
    ReadFile { path: String },
    /// Ask the user whether `path` may be written; answer with
    /// `ToolEvent::Answer`.
    ConfirmWrite { path: String },
    /// Write `content` to `path`; answer with `ToolEvent::Done`.
    WriteFile { path: String, content: String },
    /// Ask the user whether `command` may run; answer with
    /// `ToolEvent::Answer`.
    ConfirmShell { command: String },
    /// Run `command` with `sh -c` in `dir`; answer with `ToolEvent::Output`.
    RunShell { command: String, dir: String },
    /// The run is over, with this result for the model.
    Finish { result: Result<String, ToolError> },
}

/// An action as plain values.
pub enum ActionView {
    Canonicalize(Seq<char>),
    CheckExists(Seq<char>),
    ListDirectory(Seq<char>),
    CheckIsFile(Seq<char>),
    MeasureFile(Seq<char>),
    ReadFile(Seq<char>),
    ConfirmWrite(Seq<char>),
    WriteFile(Seq<char>, Seq<char>),
    ConfirmShell(Seq<char>),
    RunShell(Seq<char>, Seq<char>),
    Finish(Result<Seq<char>, ErrorView>),
}

impl View for ToolAction {
    type V = ActionView;

    open spec fn view(&self) -> ActionView {
        match self {
            ToolAction::Canonicalize { path } => ActionView::Canonicalize(path@),
            ToolAction::CheckExists { path } => ActionView::CheckExists(path@),
            ToolAction::ListDirectory { path } => ActionView::ListDirectory(path@),
            ToolAction::CheckIsFile { path } => ActionView::CheckIsFile(path@),
            ToolAction::MeasureFile { path } => ActionView::MeasureFile(path@),
            ToolAction::ReadFile { path } => ActionView::ReadFile(path@),
            ToolAction::ConfirmWrite { path } => ActionView::ConfirmWrite(path@),
            ToolAction::WriteFile { path, content } => ActionView::WriteFile(path@, content@),
            ToolAction::ConfirmShell { command } => ActionView::ConfirmShell(command@),
            ToolAction::RunShell { command, dir } => ActionView::RunShell(command@, dir@),
            ToolAction::Finish { result } => ActionView::Finish(
                match result {
                    Ok(text) => Ok(text@),
                    Err(e) => Err(e@),
                },
            ),
        }
    }
}

/// What came of an action.
pub enum ToolEvent {
    Path(String),
    Answer(bool),
    Entries(Vec<DirEntry>),
    Size(u64),
    Text(String),
    Done,
    Output { status: String, stdout: String, stderr: String },
}

/// An event as plain values.
pub enum EventView {
    Path(Seq<char>),
    Answer(bool),
    Entries(Seq<(Seq<char>, bool)>),
    Size(u64),
    Text(Seq<char>),
    Done,
    Output(Seq<char>, Seq<char>, Seq<char>),
}

impl View for ToolEvent {
    type V = EventView;

    open spec fn view(&self) -> EventView {
        match self {
            ToolEvent::Path(p) => EventView::Path(p@),
            ToolEvent::Answer(b) => EventView::Answer(*b),
            ToolEvent::Entries(es) => EventView::Entries(entries_view(es@)),
            ToolEvent::Size(n) => EventView::Size(*n),
            ToolEvent::Text(t) => EventView::Text(t@),
            ToolEvent::Done => EventView::Done,
            ToolEvent::Output { status, stdout, stderr } => EventView::Output(
                status@,
                stdout@,
                stderr@,
            ),
        }
    }
}

/// The run ends with `result`.
pub open spec fn finish(result: Result<Seq<char>, ErrorView>) -> (StageView, ActionView) {
    (StageView::Finished, ActionView::Finish(result))
}

/// The first step of a run of the tool `name` with arguments `a` in the
/// working directory `root`.
pub open spec fn run_start(root: Seq<char>, name: Seq<char>, a: ArgsView) -> (StageView, ActionView) {
    match planned(name, a) {
        Err(e) => finish(Err(e)),
        Ok(RequestView::ListFiles(p)) => if is_relative(p) {
            (StageView::ListResolve, ActionView::Canonicalize(path_join(root, p)))
        } else {
            finish(Err(ErrorView::NotRelative))
        },
        Ok(RequestView::ReadFile(p)) => if is_relative(p) {
            (StageView::ReadResolve, ActionView::Canonicalize(path_join(root, p)))
        } else {
            finish(Err(ErrorView::NotRelative))
        },
        Ok(RequestView::WriteFile(p, c)) => if is_relative(p) {
            (
                StageView::WriteExists { joined: path_join(root, p), content: c },
                ActionView::CheckExists(path_join(root, p)),
            )
        } else {
            finish(Err(ErrorView::NotRelative))
        },
        Ok(RequestView::RunShell(c)) => (
            StageView::ShellConfirm { command: c },
            ActionView::ConfirmShell(c),
        ),
    }
}

/// The first step of a run of a call as the model sent it: an error when
/// its argument text is not JSON, else the start of the named tool with
/// the arguments read.
pub open spec fn call_start(root: Seq<char>, call: CallView) -> (StageView, ActionView) {
    match json_arguments(call.arguments) {
        Ok(a) => run_start(root, call.name, a),
        Err(m) => finish(Err(ErrorView::InvalidArguments(m))),
    }
}

/// Whether `ev` answers what the stage waits for.
pub open spec fn expects(st: StageView, ev: EventView) -> bool {
    match st {
        StageView::ListResolve => ev is Path,
        StageView::ListRead => ev is Entries,
        StageView::ReadResolve => ev is Path,
        StageView::ReadIsFile { .. } => ev is Answer,
        StageView::ReadSize { .. } => ev is Size,
        StageView::ReadText => ev is Text,
        StageView::WriteExists { .. } => ev is Answer,
        StageView::WriteResolveExisting { .. } => ev is Path,
        StageView::WriteResolveParent { .. } => ev is Path,
        StageView::WriteConfirm { .. } => ev is Answer,
        StageView::WriteDo { .. } => ev is Done,
        StageView::ShellConfirm { .. } => ev is Answer,
        StageView::ShellRun => ev is Output,
        StageView::Finished => false,
    }
}

/// The report of a completed write.
pub open spec fn write_report(root: Seq<char>, target: Seq<char>, bytes: nat) -> Seq<char> {
    "wrote "@ + decimal(bytes) + " bytes to "@ + shown_path(root, target)
}

/// The report of a command that ran.
pub open spec fn shell_report(status: Seq<char>, stdout: Seq<char>, stderr: Seq<char>) -> Seq<
    char,
> {
    "status: "@ + status + "\nstdout:\n"@ + stdout + "\nstderr:\n"@ + stderr
}

/// The step a run takes when `ev` comes in: resolved paths are checked
/// against the working directory, a file must be a file of at most
/// `MAX_FILE_SIZE` bytes, and a write or a command only goes ahead when the
/// user approved it.
pub open spec fn run_step(root: Seq<char>, st: StageView, ev: EventView) -> (StageView, ActionView) {
    match st {
        StageView::ListResolve => {
            let c = ev->Path_0;
            if path_starts_with(c, root) {
                (StageView::ListRead, ActionView::ListDirectory(c))
            } else {
                finish(Err(ErrorView::OutsideWorkspace))
            }
        },
        StageView::ListRead => finish(Ok(listing_text(ev->Entries_0))),
        StageView::ReadResolve => {
            let c = ev->Path_0;
            if path_starts_with(c, root) {
                (StageView::ReadIsFile { path: c }, ActionView::CheckIsFile(c))
            } else {
                finish(Err(ErrorView::OutsideWorkspace))
            }
        },
        StageView::ReadIsFile { path } => if ev->Answer_0 {
            (StageView::ReadSize { path }, ActionView::MeasureFile(path))
        } else {
            finish(Err(ErrorView::NotAFile))
        },
        StageView::ReadSize { path } => if ev->Size_0 > MAX_FILE_SIZE {
            finish(Err(ErrorView::TooLarge))
        } else {
            (StageView::ReadText, ActionView::ReadFile(path))
        },
        StageView::ReadText => finish(Ok(ev->Text_0)),
        StageView::WriteExists { joined, content } => if ev->Answer_0 {
            (StageView::WriteResolveExisting { content }, ActionView::Canonicalize(joined))
        } else {
            match path_parent(joined) {
                None => finish(Err(ErrorView::InvalidPath)),
                Some(par) => (
                    StageView::WriteResolveParent { joined, content },
                    ActionView::Canonicalize(par),
                ),
            }
        },
        StageView::WriteResolveExisting { content } => {
            let c = ev->Path_0;
            if path_starts_with(c, root) {
                (StageView::WriteConfirm { target: c, content }, ActionView::ConfirmWrite(c))
            } else {
                finish(Err(ErrorView::OutsideWorkspace))
            }
        },
        StageView::WriteResolveParent { joined, content } => {
            let c = ev->Path_0;
            if !path_starts_with(c, root) {
                finish(Err(ErrorView::OutsideWorkspace))
            } else {
                match path_file_name(joined) {
                    Some(name) if plain_name(name) => (
                        StageView::WriteConfirm { target: path_join(c, name), content },
                        ActionView::ConfirmWrite(path_join(c, name)),
                    ),
                    _ => finish(Err(ErrorView::InvalidPath)),
                }
            }
        },
        StageView::WriteConfirm { target, content } => if ev->Answer_0 {
            (
                StageView::WriteDo {
                    target,
                    bytes: (vstd::utf8::encode_utf8(content).len() as usize) as nat,
                },
                ActionView::WriteFile(target, content),
            )
        } else {
            finish(Ok("write cancelled by user"@))
        },
        StageView::WriteDo { target, bytes } => finish(Ok(write_report(root, target, bytes))),
        StageView::ShellConfirm { command } => if ev->Answer_0 {
            (StageView::ShellRun, ActionView::RunShell(command, root))
        } else {
            finish(Ok("shell command cancelled by user"@))
        },
        StageView::ShellRun => finish(Ok(shell_report(ev->Output_0, ev->Output_1, ev->Output_2))),
        StageView::Finished => finish(Ok(seq![])),
    }
}

/// One tool call being carried out in the working directory.
pub struct ToolRun {
    root: String,
    stage: Stage,
}

impl ToolRun {
    /// The working directory of the run.
    pub closed spec fn root_path(&self) -> Seq<char> {
        self.root@
    }

    /// Where the run stands.
    pub closed spec fn stage(&self) -> StageView {
        self.stage@
    }

    /// Starts carrying out a tool call as the model sent it: arguments that
    /// are not JSON end the run with the parser's message; otherwise the
    /// run starts as `start` does with the arguments read.
    pub fn start_call(workspace: &Workspace, call: &ToolCall) -> (r: (ToolRun, ToolAction))
        ensures
            r.0.root_path() == workspace.root_path(),
            (r.0.stage(), r.1@) == call_start(workspace.root_path(), call@),
    {
        match parse_arguments(call.arguments.as_str()) {
            Ok(args) => ToolRun::start(workspace, call.name.as_str(), &args),
            Err(m) => (
                ToolRun { root: owned(workspace.root()), stage: Stage::Finished },
                ToolAction::Finish { result: Err(ToolError::InvalidArguments(m)) },
            ),
        }
    }

    /// Starts carrying out a call to the tool `name` with arguments `args`.
    pub fn start(workspace: &Workspace, name: &str, args: &ToolArguments) -> (r: (
        ToolRun,
        ToolAction,
    ))
        ensures
            r.0.root_path() == workspace.root_path(),
            (r.0.stage(), r.1@) == run_start(workspace.root_path(), name@, args@),
    {
        let root = owned(workspace.root());
        match plan(name, args) {
            Err(e) => (ToolRun { root, stage: Stage::Finished }, ToolAction::Finish { result: Err(e) }),
            Ok(ToolRequest::ListFiles { path }) => match relative_path(path.as_str()) {
                Ok(rel) => {
                    let joined = workspace.join(rel);
                    (
                        ToolRun { root, stage: Stage::ListResolve },
                        ToolAction::Canonicalize { path: joined },
                    )
                },
                Err(e) => (
                    ToolRun { root, stage: Stage::Finished },
                    ToolAction::Finish { result: Err(e) },
                ),
            },
            Ok(ToolRequest::ReadFile { path }) => match relative_path(path.as_str()) {
                Ok(rel) => {
                    let joined = workspace.join(rel);
                    (
                        ToolRun { root, stage: Stage::ReadResolve },
                        ToolAction::Canonicalize { path: joined },
                    )
                },
                Err(e) => (
                    ToolRun { root, stage: Stage::Finished },
                    ToolAction::Finish { result: Err(e) },
                ),
            },
            Ok(ToolRequest::WriteFile { path, content }) => match relative_path(path.as_str()) {
                Ok(rel) => {
                    let joined = workspace.join(rel);
                    let check = joined.clone();
                    (
                        ToolRun { root, stage: Stage::WriteExists { joined, content } },
                        ToolAction::CheckExists { path: check },
                    )
                },
                Err(e) => (
                    ToolRun { root, stage: Stage::Finished },
                    ToolAction::Finish { result: Err(e) },
                ),
            },
            Ok(ToolRequest::RunShell { command }) => {
                let shown = command.clone();
                (
                    ToolRun { root, stage: Stage::ShellConfirm { command } },
                    ToolAction::ConfirmShell { command: shown },
                )
            },
        }
    }

    /// Whether the run is over.
    pub fn finished(&self) -> (r: bool)
        ensures
            r == (self.stage() is Finished),
    {
        match self.stage {
            Stage::Finished => true,
            _ => false,
        }
    }

    /// Whether `event` is what the run waits for.
    pub fn accepts(&self, event: &ToolEvent) -> (r: bool)
        ensures
            r == expects(self.stage(), event@),
    {
        match (&self.stage, event) {
            (Stage::ListResolve, ToolEvent::Path(_)) => true,
            (Stage::ListRead, ToolEvent::Entries(_)) => true,
            (Stage::ReadResolve, ToolEvent::Path(_)) => true,
            (Stage::ReadIsFile { .. }, ToolEvent::Answer(_)) => true,
            (Stage::ReadSize { .. }, ToolEvent::Size(_)) => true,
            (Stage::ReadText, ToolEvent::Text(_)) => true,
            (Stage::WriteExists { .. }, ToolEvent::Answer(_)) => true,
            (Stage::WriteResolveExisting { .. }, ToolEvent::Path(_)) => true,
            (Stage::WriteResolveParent { .. }, ToolEvent::Path(_)) => true,
            (Stage::WriteConfirm { .. }, ToolEvent::Answer(_)) => true,
            (Stage::WriteDo { .. }, ToolEvent::Done) => true,
            (Stage::ShellConfirm { .. }, ToolEvent::Answer(_)) => true,
            (Stage::ShellRun, ToolEvent::Output { .. }) => true,
            _ => false,
        }
    }

    /// Takes in what came of the last action and gives the next one.
    pub fn step(&mut self, event: ToolEvent) -> (a: ToolAction)
        requires
            expects(old(self).stage(), event@),
        ensures
            final(self).root_path() == old(self).root_path(),
            (final(self).stage(), a@) == run_step(old(self).root_path(), old(self).stage(), event@),
    {
        let mut stage = Stage::Finished;
        std::mem::swap(&mut stage, &mut self.stage);
        let done = |result: Result<String, ToolError>| -> (a: ToolAction)
            ensures
                a == (ToolAction::Finish { result }),
            { ToolAction::Finish { result } };
        match stage {
            Stage::ListResolve => match event {
                ToolEvent::Path(c) => {
                    if starts_with(c.as_str(), self.root.as_str()) {
                        self.stage = Stage::ListRead;
                        ToolAction::ListDirectory { path: c }
                    } else {
                        done(Err(ToolError::OutsideWorkspace))
                    }
                },
                _ => done(Ok(String::new())),
            },
            Stage::ListRead => match event {
                ToolEvent::Entries(es) => done(Ok(listing(&es))),
                _ => done(Ok(String::new())),
            },
            Stage::ReadResolve => match event {
                ToolEvent::Path(c) => {
                    if starts_with(c.as_str(), self.root.as_str()) {
                        let check = c.clone();
                        self.stage = Stage::ReadIsFile { path: c };
                        ToolAction::CheckIsFile { path: check }
                    } else {
                        done(Err(ToolError::OutsideWorkspace))
                    }
                },
                _ => done(Ok(String::new())),
            },
            Stage::ReadIsFile { path } => match event {
                ToolEvent::Answer(is_file) => {
                    if is_file {
                        let measure = path.clone();
                        self.stage = Stage::ReadSize { path };
                        ToolAction::MeasureFile { path: measure }
                    } else {
                        done(Err(ToolError::NotAFile))
                    }
                },
                _ => done(Ok(String::new())),
            },
            Stage::ReadSize { path } => match event {
                ToolEvent::Size(n) => {
                    if n > MAX_FILE_SIZE {
                        done(Err(ToolError::TooLarge))
                    } else {
                        self.stage = Stage::ReadText;
                        ToolAction::ReadFile { path }
                    }
                },
                _ => done(Ok(String::new())),
            },
            Stage::ReadText => match event {
                ToolEvent::Text(t) => done(Ok(t)),
                _ => done(Ok(String::new())),
            },
            Stage::WriteExists { joined, content } => match event {
                ToolEvent::Answer(exists) => {
                    if exists {
                        self.stage = Stage::WriteResolveExisting { content };
                        ToolAction::Canonicalize { path: joined }
                    } else {
                        match parent(joined.as_str()) {
                            None => done(Err(ToolError::InvalidPath)),
                            Some(par) => {
                                self.stage = Stage::WriteResolveParent { joined, content };
                                ToolAction::Canonicalize { path: par }
                            },
                        }
                    }
                },
                _ => done(Ok(String::new())),
            },
            Stage::WriteResolveExisting { content } => match event {
                ToolEvent::Path(c) => {
                    if starts_with(c.as_str(), self.root.as_str()) {
                        let ask = c.clone();
                        self.stage = Stage::WriteConfirm { target: c, content };
                        ToolAction::ConfirmWrite { path: ask }
                    } else {
                        done(Err(ToolError::OutsideWorkspace))
                    }
                },
                _ => done(Ok(String::new())),
            },
            Stage::WriteResolveParent { joined, content } => match event {
                ToolEvent::Path(c) => {
                    if !starts_with(c.as_str(), self.root.as_str()) {
                        done(Err(ToolError::OutsideWorkspace))
                    } else {
                        match file_name(joined.as_str()) {
                            None => done(Err(ToolError::InvalidPath)),
                            Some(name) => {
                                let target = join_path(c.as_str(), name.as_str());
                                let ask = target.clone();
                                self.stage = Stage::WriteConfirm { target, content };
                                ToolAction::ConfirmWrite { path: ask }
                            },
                        }
                    }
                },
                _ => done(Ok(String::new())),
            },
            Stage::WriteConfirm { target, content } => match event {
                ToolEvent::Answer(approved) => {
                    if approved {
                        let bytes = content.as_str().len();
                        let write_to = target.clone();
                        self.stage = Stage::WriteDo { target, bytes };
                        ToolAction::WriteFile { path: write_to, content }
                    } else {
                        done(Ok(owned("write cancelled by user")))
                    }
                },
                _ => done(Ok(String::new())),
            },
            Stage::WriteDo { target, bytes } => match event {
                ToolEvent::Done => {
                    let mut report = owned("wrote ");
                    push_decimal(&mut report, bytes as u64);
                    report.append(" bytes to ");
                    let shown = Workspace { root: self.root.clone() }.display_path(target.as_str());
                    report.append(shown.as_str());
                    done(Ok(report))
                },
                _ => done(Ok(String::new())),
            },
            Stage::ShellConfirm { command } => match event {
                ToolEvent::Answer(approved) => {
                    if approved {
                        self.stage = Stage::ShellRun;
                        ToolAction::RunShell { command, dir: self.root.clone() }
                    } else {
                        done(Ok(owned("shell command cancelled by user")))
                    }
                },
                _ => done(Ok(String::new())),
            },
            Stage::ShellRun => match event {
                ToolEvent::Output { status, stdout, stderr } => {
                    let mut report = owned("status: ");
                    report.append(status.as_str());
                    report.append("\nstdout:\n");
                    report.append(stdout.as_str());
                    report.append("\nstderr:\n");
                    report.append(stderr.as_str());
                    done(Ok(report))
                },
                _ => done(Ok(String::new())),
            },
            Stage::Finished => done(Ok(String::new())),
        }
    }
}

/// `path` lies in the working directory `root`.
pub open spec fn inside(root: Seq<char>, path: Seq<char>) -> bool {
    path_starts_with(path, root)
}

/// A write target is a resolved path inside the working directory, or a
/// new plain name (one component, not `.` or `..`) in a resolved directory
/// inside it.
pub open spec fn write_target_ok(root: Seq<char>, target: Seq<char>) -> bool {
    ||| inside(root, target)
    ||| exists|dir: Seq<char>, name: Seq<char>|
        inside(root, dir) && plain_name(name) && target == #[trigger] path_join(dir, name)
}

/// The paths a stage carries are inside the working directory.
pub open spec fn stage_ok(root: Seq<char>, st: StageView) -> bool {
    match st {
        StageView::ReadIsFile { path } => inside(root, path),
        StageView::ReadSize { path } => inside(root, path),
        StageView::WriteConfirm { target, .. } => write_target_ok(root, target),
        StageView::WriteDo { target, .. } => write_target_ok(root, target),
        _ => true,
    }
}

/// An action touches files only inside the working directory, and runs
/// commands only from it.
pub open spec fn action_ok(root: Seq<char>, a: ActionView) -> bool {
    match a {
        ActionView::ListDirectory(p) => inside(root, p),
        ActionView::CheckIsFile(p) => inside(root, p),
        ActionView::MeasureFile(p) => inside(root, p),
        ActionView::ReadFile(p) => inside(root, p),
        ActionView::ConfirmWrite(p) => write_target_ok(root, p),
        ActionView::WriteFile(p, _) => write_target_ok(root, p),
        ActionView::RunShell(_, dir) => dir == root,
        _ => true,
    }
}

/// The tools stay in the working directory: a run starts in a sound stage,
/// and from a sound stage every step lists, inspects, reads and writes only
/// paths that were resolved and found inside the working directory (or new
/// names in such a directory), and runs commands only from it.
pub proof fn lemma_tools_stay_inside(root: Seq<char>, name: Seq<char>, a: ArgsView, st: StageView, ev: EventView)
    ensures
        stage_ok(root, run_start(root, name, a).0),
        action_ok(root, run_start(root, name, a).1),
        stage_ok(root, st) && expects(st, ev) ==> stage_ok(root, run_step(root, st, ev).0)
            && action_ok(root, run_step(root, st, ev).1),
{
    if stage_ok(root, st) && expects(st, ev) {
        match st {
            StageView::WriteResolveParent { joined, content } => {
                let c = ev->Path_0;
                if path_starts_with(c, root) {
                    match path_file_name(joined) {
                        Some(n) => {
                            if plain_name(n) {
                                assert(inside(root, c) && path_join(c, n) == path_join(c, n));
                                assert(write_target_ok(root, path_join(c, n)));
                            }
                        },
                        None => {},
                    }
                }
            },
            _ => {},
        }
    }
}

/// Nothing is written without the user's approval: a step writes a file
/// only when the user has just approved writing that very content to that
/// very path, and starting a run never writes.
pub proof fn lemma_write_needs_approval(root: Seq<char>, name: Seq<char>, a: ArgsView, st: StageView, ev: EventView)
    ensures
        !(run_start(root, name, a).1 is WriteFile),
        expects(st, ev) ==> (run_step(root, st, ev).1 matches ActionView::WriteFile(p, c) ==> st == (StageView::WriteConfirm { target: p, content: c }) && ev == EventView::Answer(true)),
{
}

/// An approved command runs in the working directory, and a command that
/// ran is reported in full: its status, then everything it wrote to
/// standard output, then everything it wrote to standard error.
pub proof fn lemma_shell_report(root: Seq<char>, command: Seq<char>, status: Seq<char>, stdout: Seq<
    char,
>, stderr: Seq<char>)
    ensures
        run_step(root, StageView::ShellConfirm { command }, EventView::Answer(true)) == (
        StageView::ShellRun, ActionView::RunShell(command, root)),
        run_step(root, StageView::ShellRun, EventView::Output(status, stdout, stderr)) == (
        StageView::Finished, ActionView::Finish(
            Ok("status: "@ + status + "\nstdout:\n"@ + stdout + "\nstderr:\n"@ + stderr),
        )),
{
}

/// An approved write writes exactly the content asked for to the target,
/// and then reports how many bytes of UTF-8 it wrote and where, the path
/// shown from the working directory.
pub proof fn lemma_write_report(root: Seq<char>, target: Seq<char>, content: Seq<char>)
    requires
        vstd::utf8::encode_utf8(content).len() <= usize::MAX,
    ensures
        ({
            let (st, act) = run_step(root, StageView::WriteConfirm { target, content }, EventView::Answer(true));
            &&& act == ActionView::WriteFile(target, content)
            &&& run_step(root, st, EventView::Done) == (StageView::Finished, ActionView::Finish(
                Ok("wrote "@ + decimal(vstd::utf8::encode_utf8(content).len()) + " bytes to "@
                    + shown_path(root, target)),
            ))
        }),
{
}

/// Reading checks the file: a path that is not a file is refused, a file
/// over 1 MB (1,000,000 bytes) is refused, and any smaller file is read.
pub proof fn lemma_read_limits(root: Seq<char>, path: Seq<char>, size: u64)
    ensures
        run_step(root, StageView::ReadIsFile { path }, EventView::Answer(false)) == (
        StageView::Finished, ActionView::Finish(Err(ErrorView::NotAFile))),
        run_step(root, StageView::ReadIsFile { path }, EventView::Answer(true)) == (
        StageView::ReadSize { path }, ActionView::MeasureFile(path)),
        size > 1_000_000 ==> run_step(root, StageView::ReadSize { path }, EventView::Size(size)) == (
        StageView::Finished, ActionView::Finish(Err(ErrorView::TooLarge))),
        size <= 1_000_000 ==> run_step(root, StageView::ReadSize { path }, EventView::Size(size))
            == (StageView::ReadText, ActionView::ReadFile(path)),
{
}

/// Which arguments each tool needs: `list_files` lists its `path`, or the
/// working directory `.` without one; `read_file` needs a `path`;
/// `write_file` a `path` and then a `content`; `run_shell` a `command`;
/// arguments a tool does not use make no difference; any other tool name
/// is unknown, whatever the arguments.
pub proof fn lemma_tool_arguments(name: Seq<char>, a: ArgsView, b: ArgsView)
    ensures
        name == "list_files"@ ==> planned(name, a) == Ok::<RequestView, ErrorView>(
            RequestView::ListFiles(if a.path is Some { a.path->0 } else { "."@ }),
        ),
        name == "read_file"@ && a.path is None ==> planned(name, a) == Err::<RequestView, ErrorView>(ErrorView::MissingPath),
        name == "write_file"@ && a.path is None ==> planned(name, a) == Err::<RequestView, ErrorView>(ErrorView::MissingPath),
        name == "write_file"@ && a.path is Some && a.content is None ==> planned(name, a) == Err::<
            RequestView,
            ErrorView,
        >(ErrorView::MissingContent),
        name == "run_shell"@ && a.command is None ==> planned(name, a) == Err::<RequestView, ErrorView>(ErrorView::MissingCommand),
        name == "read_file"@ && a.path is Some ==> planned(name, a) == Ok::<RequestView, ErrorView>(RequestView::ReadFile(a.path->0)),
        name == "write_file"@ && a.path is Some && a.content is Some ==> planned(name, a) == Ok::<
            RequestView,
            ErrorView,
        >(RequestView::WriteFile(a.path->0, a.content->0)),
        name == "run_shell"@ && a.command is Some ==> planned(name, a) == Ok::<RequestView, ErrorView>(RequestView::RunShell(a.command->0)),
        name != "list_files"@ && name != "read_file"@ && name != "write_file"@ && name
            != "run_shell"@ ==> planned(name, a) == Err::<RequestView, ErrorView>(ErrorView::UnknownTool(name)),
        (name == "list_files"@ || name == "read_file"@) && a.path == b.path ==> planned(name, a)
            == planned(name, b),
        name == "run_shell"@ && a.command == b.command ==> planned(name, a) == planned(name, b),
{
    reveal_strlit("list_files");
    reveal_strlit("read_file");
    reveal_strlit("write_file");
    reveal_strlit("run_shell");
    assert("read_file"@.len() != "list_files"@.len());
    assert("write_file"@[0] != "list_files"@[0]);
    assert("write_file"@.len() != "read_file"@.len());
    assert("run_shell"@.len() != "list_files"@.len());
    assert("run_shell"@[1] != "read_file"@[1]);
    assert("run_shell"@.len() != "write_file"@.len());
}

/// No command runs without the user's approval: a step runs a command only
/// when the user has just approved that very command, and starting a run
/// never runs one.
pub proof fn lemma_shell_needs_approval(root: Seq<char>, name: Seq<char>, a: ArgsView, st: StageView, ev: EventView)
    ensures
        !(run_start(root, name, a).1 is RunShell),
        expects(st, ev) ==> (run_step(root, st, ev).1 matches ActionView::RunShell(c, _) ==> st == (StageView::ShellConfirm { command: c }) && ev == EventView::Answer(true)),
{
}

/// A refusal is answered, not acted on: when the user declines a write or
/// a command, the run ends at once with the cancellation message.
pub proof fn lemma_refusal_is_answered(root: Seq<char>, st: StageView)
    ensures
        st matches StageView::WriteConfirm { .. } ==> run_step(root, st, EventView::Answer(false))
            == finish(Ok("write cancelled by user"@)),
        st matches StageView::ShellConfirm { .. } ==> run_step(root, st, EventView::Answer(false))
            == finish(Ok("shell command cancelled by user"@)),
{
}

/// The labels are in `String`'s order.
pub open spec fn is_sorted(s: Seq<Seq<char>>) -> bool {
    sorted_by(s, label_key())
}

/// A listing is in order and loses nothing: the labels are sorted, and
/// they are the entries' labels, each as often as it occurs.
pub proof fn lemma_listing_is_sorted(s: Seq<Seq<char>>)
    ensures
        is_sorted(sorted_labels(s)),
        sorted_labels(s).to_multiset() == s.to_multiset(),
{
    lemma_sort_by(s, label_key());
}

} // verus!
