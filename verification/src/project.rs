use vstd::prelude::*;
use crate::text::same_text;
use vstd::string::StringExecFns;

verus! {

/// The extension of a path, as `std::path::Path::extension` finds it.
pub uninterp spec fn path_extension(path: Seq<char>) -> Option<Seq<char>>;

/// The last component of a path, as `std::path::Path::file_name` finds it.
pub uninterp spec fn path_file_name(path: Seq<char>) -> Option<Seq<char>>;

/// `std::path::Path::extension` on a path given as text, the extension
/// returned as text. The contract names the result only: how a path splits
/// into components and where its extension starts is left to std.
#[verifier::external_body]
fn extension_of(path: &str) -> (r: Option<String>)
    ensures
        r is None <==> path_extension(path@) is None,
        r matches Some(e) ==> path_extension(path@) == Some(e@),
{
    std::path::Path::new(path).extension().and_then(|e| e.to_str()).map(|e| e.to_owned())
}

/// `std::path::Path::file_name` on a path given as text, the name returned
/// as text. The contract names the result only, as for `extension_of`.
#[verifier::external_body]
fn file_name_of(path: &str) -> (r: Option<String>)
    ensures
        r is None <==> path_file_name(path@) is None,
        r matches Some(n) ==> path_file_name(path@) == Some(n@),
{
    std::path::Path::new(path).file_name().and_then(|n| n.to_str()).map(|n| n.to_owned())
}

/// The extension of the file at `path` (`Path::extension`), as text.
pub fn file_extension(path: &str) -> (r: Option<String>)
    ensures
        r is None <==> path_extension(path@) is None,
        r matches Some(e) ==> path_extension(path@) == Some(e@),
{
    extension_of(path)
}

/// What a file of a homebrew project is.
#[derive(Debug, Clone, Copy, PartialEq, Eq, Structural)]
pub enum FileKind {
    Source,
    Header,
    Asset,
    Makefile,
    Other,
}

/// The kind of a file with the given extension and file name: C and C++
/// sources, headers, image and sound assets, and a `Makefile` without
/// extension.
pub open spec fn kind_for(extension: Option<Seq<char>>, file_name: Option<Seq<char>>) -> FileKind {
    match extension {
        None => if file_name == Some("Makefile"@) { FileKind::Makefile } else { FileKind::Other },
        Some(e) => if e == "c"@ || e == "cpp"@ || e == "cc"@ || e == "cxx"@ {
            FileKind::Source
        } else if e == "h"@ || e == "hpp"@ || e == "hh"@ || e == "hxx"@ {
            FileKind::Header
        } else if e == "png"@ || e == "jpg"@ || e == "jpeg"@ || e == "bmp"@ || e == "tga"@
            || e == "wav"@ || e == "ogg"@ {
            FileKind::Asset
        } else {
            FileKind::Other
        },
    }
}

/// C and C++ sources (`.c`, `.cpp`, `.cc`, `.cxx`), headers (`.h`, `.hpp`,
/// `.hh`, `.hxx`), image and sound assets (`.png`, `.jpg`, `.jpeg`, `.bmp`,
/// `.tga`, `.wav`, `.ogg`) are known by their extension alone, whatever the
/// file is named; a file without extension is the makefile exactly when it is
/// named `Makefile`.
pub proof fn lemma_kinds_by_extension(name: Option<Seq<char>>)
    ensures
        kind_for(Some("c"@), name) == FileKind::Source,
        kind_for(Some("cpp"@), name) == FileKind::Source,
        kind_for(Some("cc"@), name) == FileKind::Source,
        kind_for(Some("cxx"@), name) == FileKind::Source,
        kind_for(Some("h"@), name) == FileKind::Header,
        kind_for(Some("hpp"@), name) == FileKind::Header,
        kind_for(Some("hh"@), name) == FileKind::Header,
        kind_for(Some("hxx"@), name) == FileKind::Header,
        kind_for(Some("png"@), name) == FileKind::Asset,
        kind_for(Some("jpg"@), name) == FileKind::Asset,
        kind_for(Some("jpeg"@), name) == FileKind::Asset,
        kind_for(Some("bmp"@), name) == FileKind::Asset,
        kind_for(Some("tga"@), name) == FileKind::Asset,
        kind_for(Some("wav"@), name) == FileKind::Asset,
        kind_for(Some("ogg"@), name) == FileKind::Asset,
        kind_for(None, Some("Makefile"@)) == FileKind::Makefile,
        name != Some("Makefile"@) ==> kind_for(None, name) == FileKind::Other,
{
    reveal_strlit("c");
    reveal_strlit("cpp");
    reveal_strlit("cc");
    reveal_strlit("cxx");
    reveal_strlit("h");
    reveal_strlit("hpp");
    reveal_strlit("hh");
    reveal_strlit("hxx");
    reveal_strlit("png");
    reveal_strlit("jpg");
    reveal_strlit("jpeg");
    reveal_strlit("bmp");
    reveal_strlit("tga");
    reveal_strlit("wav");
    reveal_strlit("ogg");
    assert("c"@.len() == 1 && "h"@.len() == 1 && "c"@[0] == 'c' && "h"@[0] == 'h');
    assert("cc"@.len() == 2 && "hh"@.len() == 2 && "cc"@[0] == 'c' && "hh"@[0] == 'h');
    assert("cpp"@.len() == 3 && "cxx"@.len() == 3 && "hpp"@.len() == 3 && "hxx"@.len() == 3);
    assert("cpp"@[0] == 'c' && "cxx"@[0] == 'c' && "hpp"@[0] == 'h' && "hxx"@[0] == 'h');
    assert("png"@.len() == 3 && "jpg"@.len() == 3 && "bmp"@.len() == 3 && "tga"@.len() == 3);
    assert("wav"@.len() == 3 && "ogg"@.len() == 3 && "jpeg"@.len() == 4);
    assert("png"@[0] == 'p' && "jpg"@[0] == 'j' && "bmp"@[0] == 'b' && "tga"@[0] == 't');
    assert("wav"@[0] == 'w' && "ogg"@[0] == 'o');
}

/// The kind of the file at `path`.
pub open spec fn kind_of(path: Seq<char>) -> FileKind {
    kind_for(path_extension(path), path_file_name(path))
}

/// The kind of a file, from its extension and its file name.
pub fn file_kind(extension: Option<&str>, file_name: Option<&str>) -> (k: FileKind)
    ensures
        k == kind_for(
            match extension { Some(e) => Some(e@), None => None },
            match file_name { Some(n) => Some(n@), None => None },
        ),
{
    match extension {
        None => match file_name {
            Some(n) => if same_text(n, "Makefile") { FileKind::Makefile } else { FileKind::Other },
            None => FileKind::Other,
        },
        Some(e) => if same_text(e, "c") || same_text(e, "cpp") || same_text(e, "cc")
            || same_text(e, "cxx") {
            FileKind::Source
        } else if same_text(e, "h") || same_text(e, "hpp") || same_text(e, "hh")
            || same_text(e, "hxx") {
            FileKind::Header
        } else if same_text(e, "png") || same_text(e, "jpg") || same_text(e, "jpeg")
            || same_text(e, "bmp") || same_text(e, "tga") || same_text(e, "wav")
            || same_text(e, "ogg") {
            FileKind::Asset
        } else {
            FileKind::Other
        },
    }
}

/// The kind of the file at `path`.
pub fn classify(path: &str) -> (k: FileKind)
    ensures
        k == kind_of(path@),
{
    let extension = extension_of(path);
    let name = file_name_of(path);
    let e = match &extension {
        Some(s) => Some(s.as_str()),
        None => None,
    };
    let n = match &name {
        Some(s) => Some(s.as_str()),
        None => None,
    };
    file_kind(e, n)
}

/// The texts of a list of paths.
pub open spec fn paths_view(v: Seq<String>) -> Seq<Seq<char>> {
    v.map_values(|s: String| s@)
}

/// A project as a list of paths of each kind.
pub struct ProjectModel {
    pub root: Seq<char>,
    pub sources: Seq<Seq<char>>,
    pub headers: Seq<Seq<char>>,
    pub assets: Seq<Seq<char>>,
    pub makefile: Option<Seq<char>>,
}

/// Every file a project lists stands in the list of its own kind, the
/// makefile is a makefile, no list holds more files than were found, and
/// the root stays the root.
pub proof fn lemma_files_sorted_by_kind(root: Seq<char>, paths: Seq<Seq<char>>)
    ensures
        ({
            let p = with_files(empty_project(root), paths);
            &&& p.root == root
            &&& forall|i: int| 0 <= i < p.sources.len() ==> kind_of(#[trigger] p.sources[i]) == FileKind::Source
            &&& forall|i: int| 0 <= i < p.headers.len() ==> kind_of(#[trigger] p.headers[i]) == FileKind::Header
            &&& forall|i: int| 0 <= i < p.assets.len() ==> kind_of(#[trigger] p.assets[i]) == FileKind::Asset
            &&& (p.makefile matches Some(m) ==> kind_of(m) == FileKind::Makefile)
            &&& p.sources.len() + p.headers.len() + p.assets.len() <= paths.len()
        }),
    decreases paths.len(),
{
    if paths.len() > 0 {
        lemma_files_sorted_by_kind(root, paths.drop_last());
        let q = with_files(empty_project(root), paths.drop_last());
        let p = with_file(q, paths.last());
        assert forall|i: int| 0 <= i < p.sources.len() implies kind_of(#[trigger] p.sources[i]) == FileKind::Source by {
            if i < q.sources.len() {
                assert(p.sources[i] == q.sources[i]);
            }
        }
        assert forall|i: int| 0 <= i < p.headers.len() implies kind_of(#[trigger] p.headers[i]) == FileKind::Header by {
            if i < q.headers.len() {
                assert(p.headers[i] == q.headers[i]);
            }
        }
        assert forall|i: int| 0 <= i < p.assets.len() implies kind_of(#[trigger] p.assets[i]) == FileKind::Asset by {
            if i < q.assets.len() {
                assert(p.assets[i] == q.assets[i]);
            }
        }
    }
}

/// A project at `root` that holds no file yet.
pub open spec fn empty_project(root: Seq<char>) -> ProjectModel {
    ProjectModel {
        root,
        sources: Seq::empty(),
        headers: Seq::empty(),
        assets: Seq::empty(),
        makefile: None,
    }
}

/// The project after the file at `path` is found: it joins the list of its
/// kind, a makefile replaces the one found before, other files are ignored.
pub open spec fn with_file(p: ProjectModel, path: Seq<char>) -> ProjectModel {
    match kind_of(path) {
        FileKind::Source => ProjectModel { sources: p.sources.push(path), ..p },
        FileKind::Header => ProjectModel { headers: p.headers.push(path), ..p },
        FileKind::Asset => ProjectModel { assets: p.assets.push(path), ..p },
        FileKind::Makefile => ProjectModel { makefile: Some(path), ..p },
        FileKind::Other => p,
    }
}

/// The project after the files at `paths` are found, in order.
pub open spec fn with_files(p: ProjectModel, paths: Seq<Seq<char>>) -> ProjectModel
    decreases paths.len(),
{
    if paths.len() == 0 {
        p
    } else {
        with_file(with_files(p, paths.drop_last()), paths.last())
    }
}

/// A homebrew project: its root directory and the files found under it.
pub struct Project {
    pub root: String,
    pub sources: Vec<String>,
    pub headers: Vec<String>,
    pub assets: Vec<String>,
    pub makefile: Option<String>,
}

impl View for Project {
    type V = ProjectModel;

    open spec fn view(&self) -> ProjectModel {
        ProjectModel {
            root: self.root@,
            sources: paths_view(self.sources@),
            headers: paths_view(self.headers@),
            assets: paths_view(self.assets@),
            makefile: match self.makefile {
                Some(m) => Some(m@),
                None => None,
            },
        }
    }
}

/// The message of a root that is no directory.
pub open spec fn not_a_directory(root: Seq<char>) -> Seq<char> {
    root + " n'est pas un dossier"@
}

/// The name of a project whose root has the given last component:
/// that component, or "Unknown".
pub open spec fn name_for(file_name: Option<Seq<char>>) -> Seq<char> {
    match file_name {
        Some(n) => n,
        None => "Unknown"@,
    }
}

/// The name of a project whose root has the given last component.
pub fn project_name(file_name: Option<String>) -> (r: String)
    ensures
        r@ == name_for(match file_name { Some(n) => Some(n@), None => None }),
{
    match file_name {
        Some(n) => n,
        None => String::from_str("Unknown"),
    }
}

impl Project {
    /// A project at `root` that holds no file yet.
    pub fn new(root: String) -> (p: Project)
        ensures
            p@ == empty_project(root@),
    {
        let p = Project {
            root,
            sources: Vec::new(),
            headers: Vec::new(),
            assets: Vec::new(),
            makefile: None,
        };
        proof {
            assert(paths_view(p.sources@) =~= Seq::empty());
            assert(paths_view(p.headers@) =~= Seq::empty());
            assert(paths_view(p.assets@) =~= Seq::empty());
        }
        p
    }

    /// Records the file at `path`.
    pub fn add_file(&mut self, path: String)
        ensures
            final(self)@ == with_file(old(self)@, path@),
    {
        let kind = classify(path.as_str());
        match kind {
            FileKind::Source => {
                self.sources.push(path);
                proof { assert(paths_view(self.sources@) =~= paths_view(old(self).sources@).push(path@)); }
            },
            FileKind::Header => {
                self.headers.push(path);
                proof { assert(paths_view(self.headers@) =~= paths_view(old(self).headers@).push(path@)); }
            },
            FileKind::Asset => {
                self.assets.push(path);
                proof { assert(paths_view(self.assets@) =~= paths_view(old(self).assets@).push(path@)); }
            },
            FileKind::Makefile => {
                self.makefile = Some(path);
            },
            FileKind::Other => {},
        }
    }

    /// The project whose root is `root`, holding the files found under it, in
    /// the order they were found; an error when the root is no directory.
    pub fn load(root: String, root_is_dir: bool, files: Vec<String>) -> (r: Result<Project, String>)
        ensures
            match r {
                Ok(p) => root_is_dir && p@ == with_files(empty_project(root@), paths_view(files@)),
                Err(m) => !root_is_dir && m@ == not_a_directory(root@),
            },
    {
        if !root_is_dir {
            let mut message = root;
            message.append(" n'est pas un dossier");
            return Err(message);
        }
        let mut project = Project::new(root);
        let ghost start = project@;
        let ghost all = paths_view(files@);
        let mut i: usize = 0;
        while i < files.len()
            invariant
                i <= files@.len(),
                all == paths_view(files@),
                project@ == with_files(start, all.take(i as int)),
            decreases files@.len() - i,
        {
            let path = files[i].clone();
            proof {
                assert(all.take(i + 1).drop_last() =~= all.take(i as int));
            }
            project.add_file(path);
            i = i + 1;
        }
        proof { assert(all.take(i as int) =~= all); }
        Ok(project)
    }

    /// The name of the project: the last component of its root, or
    /// "Unknown" when the root has none.
    pub fn name(&self) -> (r: String)
        ensures
            r@ == name_for(path_file_name(self.root@)),
    {
        project_name(file_name_of(self.root.as_str()))
    }
}

} // verus!
