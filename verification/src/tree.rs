//! File-tree builders.
//!
//! [`FileTree`] stages files, directories and symlinks under a caller-chosen root;
//! the caller materializes the staged entries on disk in order.
use vstd::prelude::*;
use vstd::string::StringExecFns;
use vstd::utf8::encode_utf8;
use vstd::string::StrSliceExecFns;

verus! {

/// A staged file, directory or symlink, with paths relative to the tree's root.
#[derive(Debug)]
pub enum Entry {
    /// A file and its bytes.
    File { path: String, contents: Vec<u8> },
    /// An (empty) directory.
    Dir { path: String },
    /// A symlink at `link` pointing to `target`.
    Symlink { link: String, target: String },
}

/// The mathematical form of [`Entry`].
pub ghost enum EntryView {
    File { path: Seq<char>, contents: Seq<u8> },
    Dir { path: Seq<char> },
    Symlink { link: Seq<char>, target: Seq<char> },
}

impl View for Entry {
    type V = EntryView;

    open spec fn view(&self) -> EntryView {
        match self {
            Entry::File { path, contents } => EntryView::File { path: path@, contents: contents@ },
            Entry::Dir { path } => EntryView::Dir { path: path@ },
            Entry::Symlink { link, target } => EntryView::Symlink { link: link@, target: target@ },
        }
    }
}

/// The mathematical form of [`FileTree`]: the root and the staged entries in order.
pub ghost struct FileTreeView {
    pub root: Seq<char>,
    pub entries: Seq<EntryView>,
}

/// Builder for a tree of files and directories under a chosen root.
pub struct FileTree {
    root: String,
    entries: Vec<Entry>,
}

impl View for FileTree {
    type V = FileTreeView;

    closed spec fn view(&self) -> FileTreeView {
        FileTreeView { root: self.root@, entries: self.entries@.map_values(|e: Entry| e@) }
    }
}

impl FileTree {
    /// A tree rooted at `root` with nothing staged. The root must exist when the tree
    /// is built; building does not create it.
    pub fn new(root: &str) -> (t: FileTree)
        ensures
            t@.root == root@,
            t@.entries == Seq::<EntryView>::empty(),
    {
        let t = FileTree { root: root.to_string(), entries: Vec::new() };
        assert(t@.entries =~= Seq::<EntryView>::empty());
        t
    }

    /// The root of the tree.
    pub fn root(&self) -> (r: &str)
        ensures
            r@ == self@.root,
    {
        self.root.as_str()
    }

    /// The staged entries, in staging order.
    pub fn entries(&self) -> (es: &[Entry])
        ensures
            es@.map_values(|e: Entry| e@) == self@.entries,
    {
        self.entries.as_slice()
    }

    fn stage(self, e: Entry) -> (t: FileTree)
        ensures
            t@.root == self@.root,
            t@.entries == self@.entries.push(e@),
    {
        let mut t = self;
        let ghost before = t.entries@;
        t.entries.push(e);
        assert(t.entries@.map_values(|x: Entry| x@) =~= before.map_values(|x: Entry| x@).push(e@));
        t
    }

    /// Stage a UTF-8 text file at `relative_path`.
    pub fn file(self, relative_path: &str, contents: &str) -> (t: FileTree)
        ensures
            t@.root == self@.root,
            t@.entries == self@.entries.push(
                EntryView::File { path: relative_path@, contents: encode_utf8(contents@) },
            ),
    {
        let e = Entry::File { path: relative_path.to_string(), contents: contents.as_bytes_vec() };
        self.stage(e)
    }

    /// Stage a binary file at `relative_path`.
    pub fn bytes(self, relative_path: &str, contents: Vec<u8>) -> (t: FileTree)
        ensures
            t@.root == self@.root,
            t@.entries == self@.entries.push(
                EntryView::File { path: relative_path@, contents: contents@ },
            ),
    {
        let e = Entry::File { path: relative_path.to_string(), contents };
        self.stage(e)
    }

    /// Stage an empty directory at `relative_path`.
    pub fn dir(self, relative_path: &str) -> (t: FileTree)
        ensures
            t@.root == self@.root,
            t@.entries == self@.entries.push(EntryView::Dir { path: relative_path@ }),
    {
        let e = Entry::Dir { path: relative_path.to_string() };
        self.stage(e)
    }

    /// Stage a symlink at `link` pointing to `target`. Platforms without symlinks skip
    /// it when the tree is built.
    pub fn symlink(self, link: &str, target: &str) -> (t: FileTree)
        ensures
            t@.root == self@.root,
            t@.entries == self@.entries.push(
                EntryView::Symlink { link: link@, target: target@ },
            ),
    {
        let e = Entry::Symlink { link: link.to_string(), target: target.to_string() };
        self.stage(e)
    }
}

/// The `Cargo.toml` of a minimal library crate.
pub open spec fn crate_manifest(name: Seq<char>, version: Seq<char>) -> Seq<char> {
    "[package]\nname = \""@ + name + "\"\nversion = \""@ + version
        + "\"\nedition = \"2021\"\n\n[lib]\npath = \"src/lib.rs\"\n"@
}

/// The `src/lib.rs` of a minimal library crate.
pub open spec fn crate_lib_source() -> Seq<char> {
    "//! Sample crate.\n"@
}

/// One `members` line of a workspace manifest per member.
pub open spec fn member_lines(members: Seq<Seq<char>>) -> Seq<char>
    decreases members.len(),
{
    if members.len() == 0 {
        Seq::empty()
    } else {
        member_lines(members.drop_last()) + "    \""@ + members.last() + "\",\n"@
    }
}

/// The top-level `Cargo.toml` of a workspace.
pub open spec fn workspace_manifest(members: Seq<Seq<char>>) -> Seq<char> {
    "[workspace]\nresolver = \"2\"\nmembers = [\n"@ + member_lines(members) + "]\n"@
}

/// The entries of a minimal library crate: `Cargo.toml`, then `src/lib.rs`.
pub open spec fn crate_entries(name: Seq<char>, version: Seq<char>) -> Seq<EntryView> {
    seq![
        EntryView::File {
            path: "Cargo.toml"@,
            contents: encode_utf8(crate_manifest(name, version)),
        },
        EntryView::File { path: "src/lib.rs"@, contents: encode_utf8(crate_lib_source()) },
    ]
}

/// The top-level entries of a workspace: its `Cargo.toml`.
pub open spec fn workspace_entries(members: Seq<Seq<char>>) -> Seq<EntryView> {
    seq![
        EntryView::File {
            path: "Cargo.toml"@,
            contents: encode_utf8(workspace_manifest(members)),
        },
    ]
}

/// A minimal Rust crate layout under `root`: `Cargo.toml` (package `name` at
/// `version`, edition 2021, library at `src/lib.rs`) and `src/lib.rs`.
pub fn rust_crate(root: &str, name: &str, version: &str) -> (t: FileTree)
    ensures
        t@.root == root@,
        t@.entries == crate_entries(name@, version@),
{
    let mut cargo = "[package]\nname = \"".to_string();
    cargo.append(name);
    cargo.append("\"\nversion = \"");
    cargo.append(version);
    cargo.append("\"\nedition = \"2021\"\n\n[lib]\npath = \"src/lib.rs\"\n");
    let t = FileTree::new(root).file("Cargo.toml", cargo.as_str()).file(
        "src/lib.rs",
        "//! Sample crate.\n",
    );
    assert(t@.entries =~= crate_entries(name@, version@));
    t
}

/// `rel` is one plain path component on every platform: non-empty, without `/`, `\\` or
/// `:`, and neither `.` nor `..`.
pub open spec fn plain_component(rel: Seq<char>) -> bool {
    &&& rel.len() > 0
    &&& forall|k: int| 0 <= k < rel.len() ==> #[trigger] rel[k] != '/' && rel[k] != '\\' && rel[k] != ':'
    &&& rel != "."@
    &&& rel != ".."@
}

/// `root` is a bare Windows drive: one ASCII letter and `:`.
pub open spec fn bare_drive(root: Seq<char>) -> bool {
    root.len() == 2 && (('a' <= root[0] && root[0] <= 'z') || ('A' <= root[0] && root[0] <= 'Z'))
        && root[1] == ':'
}

/// `p` is `rel` joined under `root`, as `Path::join` joins a plain component: nothing in
/// between when `root` is empty or ends in `/`; otherwise a separator, which is `/` or
/// `\\` as the platform has it, except that a root ending in `\\` or a bare drive may
/// take none (on Windows, where `\\` separates and a drive stands alone).
pub open spec fn joined_under(root: Seq<char>, rel: Seq<char>, p: Seq<char>) -> bool {
    if root.len() == 0 || root.last() == '/' {
        p == root + rel
    } else if root.last() == '\\' || bare_drive(root) {
        p == root + rel || p == root + seq!['/'] + rel
    } else {
        p == root + seq!['/'] + rel || p == root + seq!['\\'] + rel
    }
}

/// `root` starts with two separators (`/` or `\\`): on Windows a UNC, device or verbatim
/// prefix, which `Path::join` may rebuild rather than extend.
pub open spec fn double_separator_start(root: Seq<char>) -> bool {
    root.len() >= 2 && (root[0] == '/' || root[0] == '\\') && (root[1] == '/' || root[1] == '\\')
}

/// `rel` placed under `root`, as `std::path::Path::join` does it, read back as text.
///
/// Trusted: for a plain component `rel` and a root that does not start with two
/// separators, `Path::join` (through `PathBuf::push`) appends the platform's separator
/// (`/`, or `\\` on Windows) when `root` is not empty and does not already end in a
/// separator (`/` on every platform, also `\\` on Windows) and, on Windows, is not a
/// bare drive; then `rel`. The text of a path built from text is read back unchanged. Roots with a Windows verbatim prefix
/// (`\\?\`) are rebuilt component by component, and what an absolute or otherwise
/// special `rel` does depends on the platform: neither is stated.
#[verifier::external_body]
fn join_path(root: &str, rel: &str) -> (p: String)
    ensures
        plain_component(rel@) && !double_separator_start(root@) ==> joined_under(root@, rel@, p@),
{
    std::path::Path::new(root).join(rel).to_string_lossy().into_owned()
}

/// The trees of a multi-crate workspace under `root`, in the order they are built: first
/// the top-level tree, a `Cargo.toml` with `[workspace]`, resolver 2 and one `members`
/// line per name in `members`; then, for each member in order, the [`rust_crate`] tree of
/// that name at version `0.0.0`, rooted at `root` joined with the member's name.
pub fn rust_workspace(root: &str, members: &[&str]) -> (ts: Vec<FileTree>)
    ensures
        ts.len() == members.len() + 1,
        ts[0]@.root == root@,
        ts[0]@.entries == workspace_entries(members.deep_view()),
        forall|i: int|
            0 <= i < members.len() ==> (#[trigger] ts[i + 1])@.entries == crate_entries(
                members[i]@,
                "0.0.0"@,
            ),
        forall|i: int|
            0 <= i < members.len() && plain_component(members[i]@) && !double_separator_start(
                root@,
            ) ==> joined_under(
                root@,
                members[i]@,
                (#[trigger] ts[i + 1])@.root,
            ),
{
    let ghost ms = members.deep_view();
    let mut lines = String::new();
    let mut i: usize = 0;
    while i < members.len()
        invariant
            ms == members.deep_view(),
            i <= members.len(),
            lines@ == member_lines(ms.take(i as int)),
        decreases members.len() - i,
    {
        lines.append("    \"");
        lines.append(members[i]);
        lines.append("\",\n");
        proof {
            let t = ms.take(i + 1);
            assert(t.drop_last() =~= ms.take(i as int));
            assert(t.last() == members[i as int]@);
        }
        i = i + 1;
    }
    assert(ms.take(members.len() as int) =~= ms);
    let mut toml = "[workspace]\nresolver = \"2\"\nmembers = [\n".to_string();
    toml.append(lines.as_str());
    toml.append("]\n");
    let top = FileTree::new(root).file("Cargo.toml", toml.as_str());
    assert(top@.entries =~= workspace_entries(ms));
    let mut ts: Vec<FileTree> = Vec::new();
    ts.push(top);
    let mut j: usize = 0;
    while j < members.len()
        invariant
            j <= members.len(),
            ts.len() == j + 1,
            ts[0]@.root == root@,
            ts[0]@.entries == workspace_entries(members.deep_view()),
            forall|k: int|
                0 <= k < j ==> (#[trigger] ts[k + 1])@.entries == crate_entries(
                    members[k]@,
                    "0.0.0"@,
                ),
            forall|k: int|
                0 <= k < j && plain_component(members[k]@) && !double_separator_start(root@)
                    ==> joined_under(
                    root@,
                    members[k]@,
                    (#[trigger] ts[k + 1])@.root,
                ),
        decreases members.len() - j,
    {
        let member_root = join_path(root, members[j]);
        ts.push(rust_crate(member_root.as_str(), members[j], "0.0.0"));
        j = j + 1;
    }
    ts
}

} // verus!
