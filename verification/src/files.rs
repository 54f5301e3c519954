//! The editor's file targets: the three editable files of a project directory and which
//! of them a changed path refers to.
use vstd::prelude::*;

use crate::strs::{cat3, string_eq};

verus! {

/// The three editable files (schema | layout | endpoints).
#[derive(Debug, Clone, Copy, PartialEq, Eq)]
pub enum FileKind {
    Schema,
    Layout,
    Endpoints,
}

pub open spec fn kind_name(k: FileKind) -> Seq<char> {
    match k {
        FileKind::Schema => "schema"@,
        FileKind::Layout => "layout"@,
        FileKind::Endpoints => "endpoints"@,
    }
}

impl FileKind {
    pub fn parse(s: &str) -> (r: Option<FileKind>)
        ensures
            match r {
                Some(k) => kind_name(k) == s@,
                None => s@ != "schema"@ && s@ != "layout"@ && s@ != "endpoints"@,
            },
    {
        if string_eq(s, "schema") {
            Some(FileKind::Schema)
        } else if string_eq(s, "layout") {
            Some(FileKind::Layout)
        } else if string_eq(s, "endpoints") {
            Some(FileKind::Endpoints)
        } else {
            None
        }
    }

    pub fn as_str(self) -> (r: &'static str)
        ensures
            r@ == kind_name(self),
    {
        match self {
            FileKind::Schema => "schema",
            FileKind::Layout => "layout",
            FileKind::Endpoints => "endpoints",
        }
    }
}

/// Parsing a kind's name gives the kind back.
pub proof fn kind_name_injective(a: FileKind, b: FileKind)
    ensures
        kind_name(a) == kind_name(b) ==> a == b,
{
    reveal_strlit("schema");
    reveal_strlit("layout");
    reveal_strlit("endpoints");
    assert("schema"@[0] != "layout"@[0]);
    assert("schema"@.len() != "endpoints"@.len());
    assert("layout"@.len() != "endpoints"@.len());
}

/// One normal path component on every platform: non-empty, no separator (`/` or `\\`),
/// neither `.` nor `..`, and no drive prefix (`X:` at the start).
pub open spec fn plain_file_part(s: Seq<char>) -> bool {
    &&& s.len() > 0
    &&& s != "."@
    &&& s != ".."@
    &&& forall|i: int| 0 <= i < s.len() ==> #[trigger] s[i] != '/' && s[i] != '\\'
    &&& !(s.len() >= 2 && s[1] == ':')
}

/// The text of `p` after its last `/` (all of `p` when it has none).
pub open spec fn after_last_slash(p: Seq<char>) -> Seq<char>
    decreases p.len(),
{
    if p.len() == 0 {
        p
    } else if p.last() == '/' {
        seq![]
    } else {
        after_last_slash(p.drop_last()).push(p.last())
    }
}

/// A path whose final component every platform reads alike: no `\\`, not starting with
/// `//`, and a plain component after its last `/`.
pub open spec fn plain_tail(p: Seq<char>) -> bool {
    &&& forall|i: int| 0 <= i < p.len() ==> #[trigger] p[i] != '\\'
    &&& !(p.len() >= 2 && p[0] == '/' && p[1] == '/')
    &&& plain_file_part(after_last_slash(p))
}

pub open spec fn opt_view(o: Option<String>) -> Option<Seq<char>> {
    match o {
        Some(s) => Some(s@),
        None => None,
    }
}

/// `Path::join`, as text. Joining a plain component appends it as the final component, so the
/// result ends with it (the separator put before it is the platform's own).
#[verifier::external_body]
pub(crate) fn path_join(base: &str, part: &str) -> (r: String)
    ensures
        plain_file_part(part@) ==> r@.len() >= part@.len() && r@.subrange(r@.len() - part@.len(), r@.len() as int) == part@,
{
    std::path::Path::new(base).join(part).to_string_lossy().into_owned()
}

/// `Path::file_name`. For a path whose final component every platform reads alike
/// (`plain_tail`), that component; what it reports for other paths follows the platform's
/// path rules and is not stated.
#[verifier::external_body]
pub(crate) fn file_name(p: &str) -> (r: Option<String>)
    ensures
        plain_tail(p@) ==> opt_view(r) == Some(after_last_slash(p@)),
{
    std::path::Path::new(p).file_name().map(|n| n.to_string_lossy().into_owned())
}

/// Target paths directly under the target directory.
#[derive(Debug)]
pub struct Targets {
    pub dir: String,
    pub env: String,
    pub schema: String,
    pub layout: String,
    pub endpoints: String,
}

/// `s` ends with `tail`.
pub open spec fn ends_with(s: Seq<char>, tail: Seq<char>) -> bool {
    s.len() >= tail.len() && s.subrange(s.len() - tail.len(), s.len() as int) == tail
}

/// The file name of each target: the schema, the layout, and the endpoints of the environment.
pub open spec fn target_part(env: Seq<char>, k: FileKind) -> Seq<char> {
    match k {
        FileKind::Schema => "schema.sahou.yaml"@,
        FileKind::Layout => "layout.sahou.json"@,
        FileKind::Endpoints => "endpoints."@ + env + ".yaml"@,
    }
}

/// The targets joined under `dir` (`Path::join`): each ends with its file name, and the
/// endpoints one does so when the environment name holds no separator.
pub fn resolve_targets(dir: &str, env: &str) -> (t: Targets)
    ensures
        t.dir@ == dir@,
        t.env@ == env@,
        ends_with(t.schema@, target_part(env@, FileKind::Schema)),
        ends_with(t.layout@, target_part(env@, FileKind::Layout)),
        (forall|i: int| 0 <= i < env@.len() ==> #[trigger] env@[i] != '/' && env@[i] != '\\') ==> ends_with(
            t.endpoints@,
            target_part(env@, FileKind::Endpoints),
        ),
{
    proof {
        target_parts_plain(env@);
    }
    let ep = cat3("endpoints.", env, ".yaml");
    Targets {
        dir: String::from_str(dir),
        env: String::from_str(env),
        schema: path_join(dir, "schema.sahou.yaml"),
        layout: path_join(dir, "layout.sahou.json"),
        endpoints: path_join(dir, ep.as_str()),
    }
}

/// The target file names are plain components (the endpoints one for an environment name
/// without a separator).
proof fn target_parts_plain(env: Seq<char>)
    ensures
        plain_file_part(target_part(env, FileKind::Schema)),
        plain_file_part(target_part(env, FileKind::Layout)),
        (forall|i: int| 0 <= i < env.len() ==> #[trigger] env[i] != '/' && env[i] != '\\') ==> plain_file_part(
            target_part(env, FileKind::Endpoints),
        ),
{
    reveal_strlit("schema.sahou.yaml");
    reveal_strlit("layout.sahou.json");
    reveal_strlit("endpoints.");
    reveal_strlit(".yaml");
    reveal_strlit(".");
    reveal_strlit("..");
    let e = "endpoints."@ + env + ".yaml"@;
    if forall|i: int| 0 <= i < env.len() ==> #[trigger] env[i] != '/' && env[i] != '\\' {
        assert forall|i: int| 0 <= i < e.len() implies #[trigger] e[i] != '/' && e[i] != '\\' by {
            if i < 10 {
            } else if i < 10 + env.len() {
                assert(e[i] == env[i - 10]);
            } else {
                assert(e[i] == ".yaml"@[i - 10 - env.len()]);
            }
        }
    }
    assert(e.len() > 2);
    assert(e[1] == 'n');
    assert("schema.sahou.yaml"@.len() > 2);
    assert("layout.sahou.json"@.len() > 2);
}

pub open spec fn target_path(t: Targets, k: FileKind) -> Seq<char> {
    match k {
        FileKind::Schema => t.schema@,
        FileKind::Layout => t.layout@,
        FileKind::Endpoints => t.endpoints@,
    }
}

/// The first target whose file name equals `name` (the file names as `Path::file_name`
/// reports them: the path's, then the schema's, the layout's and the endpoints').
pub open spec fn kind_named(name: Option<Seq<char>>, schema: Option<Seq<char>>, layout: Option<Seq<char>>, endpoints: Option<Seq<char>>) -> Option<FileKind> {
    if name == schema {
        Some(FileKind::Schema)
    } else if name == layout {
        Some(FileKind::Layout)
    } else if name == endpoints {
        Some(FileKind::Endpoints)
    } else {
        None
    }
}

fn same_name(a: &Option<String>, b: &Option<String>) -> (r: bool)
    ensures
        r == (opt_view(*a) == opt_view(*b)),
{
    match (a, b) {
        (Some(x), Some(y)) => string_eq(x.as_str(), y.as_str()),
        (None, None) => true,
        _ => false,
    }
}

/// Which target a file is, by file names already read: the first whose name equals the file's.
pub fn kind_by_names(name: &Option<String>, schema: &Option<String>, layout: &Option<String>, endpoints: &Option<String>) -> (r: Option<FileKind>)
    ensures
        r == kind_named(opt_view(*name), opt_view(*schema), opt_view(*layout), opt_view(*endpoints)),
{
    if same_name(name, schema) {
        Some(FileKind::Schema)
    } else if same_name(name, layout) {
        Some(FileKind::Layout)
    } else if same_name(name, endpoints) {
        Some(FileKind::Endpoints)
    } else {
        None
    }
}

impl Targets {
    pub fn path_of(&self, kind: FileKind) -> (r: &str)
        ensures
            r@ == target_path(*self, kind),
    {
        match kind {
            FileKind::Schema => self.schema.as_str(),
            FileKind::Layout => self.layout.as_str(),
            FileKind::Endpoints => self.endpoints.as_str(),
        }
    }

    /// Map a watch event path to the target it is (None if not a target): the first target
    /// whose file name equals the path's, with the file names read by `Path::file_name`.
    pub fn kind_of(&self, path: &str) -> (r: Option<FileKind>)
        ensures
            kind_outcome(*self, path@, r),
    {
        let n = file_name(path);
        let a = file_name(self.schema.as_str());
        let b = file_name(self.layout.as_str());
        let c = file_name(self.endpoints.as_str());
        let r = kind_by_names(&n, &a, &b, &c);
        assert(r == kind_named(opt_view(n), opt_view(a), opt_view(b), opt_view(c)));
        r
    }
}

/// What `kind_of` may answer for `path`: the first match among file names that `Path::file_name`
/// reports, where each path whose final component every platform reads alike has that
/// component as its file name.
pub open spec fn kind_outcome(t: Targets, path: Seq<char>, r: Option<FileKind>) -> bool {
    exists|n: Option<Seq<char>>, a: Option<Seq<char>>, b: Option<Seq<char>>, c: Option<Seq<char>>|
        #![trigger kind_named(n, a, b, c)]
        {
            &&& r == kind_named(n, a, b, c)
            &&& plain_tail(path) ==> n == Some(after_last_slash(path))
            &&& plain_tail(t.schema@) ==> a == Some(after_last_slash(t.schema@))
            &&& plain_tail(t.layout@) ==> b == Some(after_last_slash(t.layout@))
            &&& plain_tail(t.endpoints@) ==> c == Some(after_last_slash(t.endpoints@))
        }
}

/// A target's own path is that target, for targets whose paths every platform reads alike
/// and whose file names differ: `kind_of(path_of(k))` is `Some(k)` for every `k`.
pub proof fn own_path_finds_its_target(t: Targets, k: FileKind, r: Option<FileKind>)
    requires
        plain_tail(t.schema@),
        plain_tail(t.layout@),
        plain_tail(t.endpoints@),
        after_last_slash(t.schema@) != after_last_slash(t.layout@),
        after_last_slash(t.schema@) != after_last_slash(t.endpoints@),
        after_last_slash(t.layout@) != after_last_slash(t.endpoints@),
        kind_outcome(t, target_path(t, k), r),
    ensures
        r == Some(k),
{
    let (n, a, b, c) = choose|n: Option<Seq<char>>, a: Option<Seq<char>>, b: Option<Seq<char>>, c: Option<Seq<char>>|
        #![trigger kind_named(n, a, b, c)]
        {
            &&& r == kind_named(n, a, b, c)
            &&& plain_tail(target_path(t, k)) ==> n == Some(after_last_slash(target_path(t, k)))
            &&& plain_tail(t.schema@) ==> a == Some(after_last_slash(t.schema@))
            &&& plain_tail(t.layout@) ==> b == Some(after_last_slash(t.layout@))
            &&& plain_tail(t.endpoints@) ==> c == Some(after_last_slash(t.endpoints@))
        };
    own_name_finds_its_target(after_last_slash(t.schema@), after_last_slash(t.layout@), after_last_slash(t.endpoints@), k);
}

/// A target's own file name finds that target, whenever the three file names differ: only
/// the file name decides, first match first.
pub proof fn own_name_finds_its_target(schema: Seq<char>, layout: Seq<char>, endpoints: Seq<char>, k: FileKind)
    requires
        schema != layout,
        schema != endpoints,
        layout != endpoints,
    ensures
        kind_named(
            Some(
                match k {
                    FileKind::Schema => schema,
                    FileKind::Layout => layout,
                    FileKind::Endpoints => endpoints,
                },
            ),
            Some(schema),
            Some(layout),
            Some(endpoints),
        ) == Some(k),
{
}

/// The three target file names differ (their first characters do).
pub proof fn target_parts_differ(env: Seq<char>)
    ensures
        target_part(env, FileKind::Schema) != target_part(env, FileKind::Layout),
        target_part(env, FileKind::Schema) != target_part(env, FileKind::Endpoints),
        target_part(env, FileKind::Layout) != target_part(env, FileKind::Endpoints),
{
    reveal_strlit("schema.sahou.yaml");
    reveal_strlit("layout.sahou.json");
    reveal_strlit("endpoints.");
    assert(target_part(env, FileKind::Schema)[0] != target_part(env, FileKind::Layout)[0]);
    assert(target_part(env, FileKind::Schema)[0] != target_part(env, FileKind::Endpoints)[0]);
    assert(target_part(env, FileKind::Layout)[0] != target_part(env, FileKind::Endpoints)[0]);
}

} // verus!
