//! The path resolver: named directories under one base directory, and the
//! escape rules that route a logical path to a concrete one.
//!
//! Paths are held as text with `/` as the separator. Joining follows the
//! platform rule: a fragment that starts with `/` replaces the directory, and
//! a separator is added only where the directory does not already end in one.

use vstd::prelude::*;
use vstd::string::*;
use crate::text::{find_char, first_index_of, push_char, starts_with_char, str_eq};

verus! {

/// The fixed set of directories that the resolver knows by name.
#[derive(Clone, Copy, Debug, PartialEq, Eq, Structural)]
pub enum DirectoryKind {
    Root,
    Logs,
    Scripts,
    Public,
    Private,
    Databases,
    Plugins,
    Templates,
    Flowstreams,
    Modules,
    Tmp,
}

/// The number of directory kinds.
pub const DIRECTORY_KINDS: usize = 11;

impl DirectoryKind {
    /// The position of the kind in the resolver's table.
    pub open spec fn spec_index(self) -> int {
        match self {
            DirectoryKind::Root => 0,
            DirectoryKind::Logs => 1,
            DirectoryKind::Scripts => 2,
            DirectoryKind::Public => 3,
            DirectoryKind::Private => 4,
            DirectoryKind::Databases => 5,
            DirectoryKind::Plugins => 6,
            DirectoryKind::Templates => 7,
            DirectoryKind::Flowstreams => 8,
            DirectoryKind::Modules => 9,
            DirectoryKind::Tmp => 10,
        }
    }

    /// The name of the kind, which is also the name of its subdirectory.
    pub open spec fn spec_name(self) -> Seq<char> {
        match self {
            DirectoryKind::Root => "root"@,
            DirectoryKind::Logs => "logs"@,
            DirectoryKind::Scripts => "scripts"@,
            DirectoryKind::Public => "public"@,
            DirectoryKind::Private => "private"@,
            DirectoryKind::Databases => "databases"@,
            DirectoryKind::Plugins => "plugins"@,
            DirectoryKind::Templates => "templates"@,
            DirectoryKind::Flowstreams => "flowstreams"@,
            DirectoryKind::Modules => "modules"@,
            DirectoryKind::Tmp => "tmp"@,
        }
    }

    /// The position of the kind in the resolver's table.
    pub fn index(self) -> (r: usize)
        ensures
            r as int == self.spec_index(),
            r < DIRECTORY_KINDS,
    {
        match self {
            DirectoryKind::Root => 0,
            DirectoryKind::Logs => 1,
            DirectoryKind::Scripts => 2,
            DirectoryKind::Public => 3,
            DirectoryKind::Private => 4,
            DirectoryKind::Databases => 5,
            DirectoryKind::Plugins => 6,
            DirectoryKind::Templates => 7,
            DirectoryKind::Flowstreams => 8,
            DirectoryKind::Modules => 9,
            DirectoryKind::Tmp => 10,
        }
    }

    /// The name of the kind.
    pub fn name(self) -> (r: &'static str)
        ensures
            r@ == self.spec_name(),
    {
        match self {
            DirectoryKind::Root => "root",
            DirectoryKind::Logs => "logs",
            DirectoryKind::Scripts => "scripts",
            DirectoryKind::Public => "public",
            DirectoryKind::Private => "private",
            DirectoryKind::Databases => "databases",
            DirectoryKind::Plugins => "plugins",
            DirectoryKind::Templates => "templates",
            DirectoryKind::Flowstreams => "flowstreams",
            DirectoryKind::Modules => "modules",
            DirectoryKind::Tmp => "tmp",
        }
    }

    /// The kind at a position of the resolver's table.
    pub open spec fn spec_at(i: int) -> DirectoryKind {
        if i == 0 {
            DirectoryKind::Root
        } else if i == 1 {
            DirectoryKind::Logs
        } else if i == 2 {
            DirectoryKind::Scripts
        } else if i == 3 {
            DirectoryKind::Public
        } else if i == 4 {
            DirectoryKind::Private
        } else if i == 5 {
            DirectoryKind::Databases
        } else if i == 6 {
            DirectoryKind::Plugins
        } else if i == 7 {
            DirectoryKind::Templates
        } else if i == 8 {
            DirectoryKind::Flowstreams
        } else if i == 9 {
            DirectoryKind::Modules
        } else {
            DirectoryKind::Tmp
        }
    }

    /// The kind at a position of the resolver's table.
    pub fn at(i: usize) -> (r: DirectoryKind)
        requires
            i < DIRECTORY_KINDS,
        ensures
            r == Self::spec_at(i as int),
            r.spec_index() == i,
    {
        if i == 0 {
            DirectoryKind::Root
        } else if i == 1 {
            DirectoryKind::Logs
        } else if i == 2 {
            DirectoryKind::Scripts
        } else if i == 3 {
            DirectoryKind::Public
        } else if i == 4 {
            DirectoryKind::Private
        } else if i == 5 {
            DirectoryKind::Databases
        } else if i == 6 {
            DirectoryKind::Plugins
        } else if i == 7 {
            DirectoryKind::Templates
        } else if i == 8 {
            DirectoryKind::Flowstreams
        } else if i == 9 {
            DirectoryKind::Modules
        } else {
            DirectoryKind::Tmp
        }
    }
}

/// The kind whose name is `name`, if any.
pub open spec fn kind_of_name(name: Seq<char>) -> Option<DirectoryKind> {
    if name == "root"@ {
        Some(DirectoryKind::Root)
    } else if name == "logs"@ {
        Some(DirectoryKind::Logs)
    } else if name == "scripts"@ {
        Some(DirectoryKind::Scripts)
    } else if name == "public"@ {
        Some(DirectoryKind::Public)
    } else if name == "private"@ {
        Some(DirectoryKind::Private)
    } else if name == "databases"@ {
        Some(DirectoryKind::Databases)
    } else if name == "plugins"@ {
        Some(DirectoryKind::Plugins)
    } else if name == "templates"@ {
        Some(DirectoryKind::Templates)
    } else if name == "flowstreams"@ {
        Some(DirectoryKind::Flowstreams)
    } else if name == "modules"@ {
        Some(DirectoryKind::Modules)
    } else if name == "tmp"@ {
        Some(DirectoryKind::Tmp)
    } else {
        None
    }
}

/// The kind whose name is `name`, if any.
pub fn kind_from_name(name: &str) -> (r: Option<DirectoryKind>)
    ensures
        r == kind_of_name(name@),
{
    if str_eq(name, "root") {
        Some(DirectoryKind::Root)
    } else if str_eq(name, "logs") {
        Some(DirectoryKind::Logs)
    } else if str_eq(name, "scripts") {
        Some(DirectoryKind::Scripts)
    } else if str_eq(name, "public") {
        Some(DirectoryKind::Public)
    } else if str_eq(name, "private") {
        Some(DirectoryKind::Private)
    } else if str_eq(name, "databases") {
        Some(DirectoryKind::Databases)
    } else if str_eq(name, "plugins") {
        Some(DirectoryKind::Plugins)
    } else if str_eq(name, "templates") {
        Some(DirectoryKind::Templates)
    } else if str_eq(name, "flowstreams") {
        Some(DirectoryKind::Flowstreams)
    } else if str_eq(name, "modules") {
        Some(DirectoryKind::Modules)
    } else if str_eq(name, "tmp") {
        Some(DirectoryKind::Tmp)
    } else {
        None
    }
}

/// `part` appended to `dir`: a fragment starting with `/` replaces the
/// directory, and one separator stands between the two.
pub open spec fn join_spec(dir: Seq<char>, part: Seq<char>) -> Seq<char> {
    if part.len() > 0 && part[0] == '/' {
        part
    } else if dir.len() == 0 {
        part
    } else if dir.last() == '/' {
        dir + part
    } else {
        dir.push('/') + part
    }
}

/// Joins a path fragment onto a directory.
pub fn join_path(dir: &str, part: &str) -> (r: String)
    ensures
        r@ == join_spec(dir@, part@),
{
    if starts_with_char(part, '/') || dir.is_empty() {
        return part.to_owned();
    }
    let n = dir.unicode_len();
    let mut r = String::from_str(dir);
    if dir.get_char(n - 1) != '/' {
        push_char(&mut r, '/');
    }
    r.append(part);
    r
}

/// What an optional fragment holds.
pub open spec fn opt_view(o: Option<&str>) -> Option<Seq<char>> {
    match o {
        Some(s) => Some(s@),
        None => None,
    }
}

/// The characters of `s` from position `k` on; empty where `k` is past the end.
pub open spec fn skip_spec(s: Seq<char>, k: int) -> Seq<char> {
    if k <= s.len() {
        s.subrange(k, s.len() as int)
    } else {
        Seq::empty()
    }
}

/// The fragment under the plugins directory for a plugin-scoped path.
/// `tmp` is the path without its leading `_`, `i` the position of its first
/// `/`: the plugin name, the directory context (empty for `root`), and the
/// rest of the path after the slash and the character that follows it.
pub open spec fn plugin_fragment(tmp: Seq<char>, i: int, directory: Seq<char>) -> Seq<char> {
    let dir_part = if directory == "root"@ { Seq::empty() } else { directory };
    tmp.subrange(0, i).push('/') + dir_part.push('/') + skip_spec(tmp, i + 2)
}

/// A directory with one trailing separator, so that whatever is appended
/// stands beneath it.
pub open spec fn with_separator(dir: Seq<char>) -> Seq<char> {
    if dir.len() > 0 && dir.last() == '/' {
        dir
    } else {
        dir.push('/')
    }
}

/// True when `route` treats `path` as plugin-scoped: it starts with `_` and
/// holds a `/` after that.
pub open spec fn is_plugin_path(path: Seq<char>) -> bool {
    path.len() > 0 && path[0] == '_' && first_index_of(path.drop_first(), '/') is Some
}

/// Resolves named directories under one base directory.
pub struct TPath {
    base_dir: String,
    temporary_dirs: Vec<String>,
}

impl TPath {
    /// The base directory.
    pub closed spec fn base(&self) -> Seq<char> {
        self.base_dir@
    }

    /// The directory of a kind: the base itself for `Root`, else the
    /// subdirectory of the kind's name.
    pub open spec fn dir_of(&self, k: DirectoryKind) -> Seq<char> {
        match k {
            DirectoryKind::Root => self.base(),
            _ => join_spec(self.base(), k.spec_name()),
        }
    }

    /// The directory of a kind, with the fragment joined on where one is given.
    pub open spec fn resolve_spec(&self, k: DirectoryKind, fragment: Option<Seq<char>>) -> Seq<char> {
        match fragment {
            Some(p) => join_spec(self.dir_of(k), p),
            None => self.dir_of(k),
        }
    }

    /// Where `route` sends `path` in the context of the directory named
    /// `directory`.
    pub open spec fn route_spec(&self, path: Seq<char>, directory: Seq<char>) -> Seq<char> {
        if path.len() > 0 && path[0] == '~' {
            path.drop_first()
        } else if path.len() > 0 && path[0] == '_' && first_index_of(path.drop_first(), '/') is Some {
            let tmp = path.drop_first();
            let i = first_index_of(tmp, '/')->0;
            with_separator(self.dir_of(DirectoryKind::Plugins)) + plugin_fragment(tmp, i, directory)
        } else {
            match kind_of_name(directory) {
                Some(k) => join_spec(self.dir_of(k), path),
                None => self.base(),
            }
        }
    }

    #[verifier::type_invariant]
    spec fn inv(&self) -> bool {
        &&& self.temporary_dirs@.len() == DIRECTORY_KINDS
        &&& forall|i: int|
            0 <= i < DIRECTORY_KINDS ==> #[trigger] self.temporary_dirs@[i]@ == self.dir_of(
                DirectoryKind::spec_at(i),
            )
    }

    /// A resolver rooted at `base_dir`, with the directory of every kind
    /// computed once.
    pub fn new(base_dir: String) -> (r: TPath)
        ensures
            r.base() == base_dir@,
    {
        let mut dirs: Vec<String> = Vec::new();
        let mut i: usize = 0;
        while i < DIRECTORY_KINDS
            invariant
                i <= DIRECTORY_KINDS,
                dirs@.len() == i,
                forall|j: int|
                    0 <= j < i ==> #[trigger] dirs@[j]@ == (match DirectoryKind::spec_at(j) {
                        DirectoryKind::Root => base_dir@,
                        k => join_spec(base_dir@, k.spec_name()),
                    }),
            decreases DIRECTORY_KINDS - i,
        {
            let k = DirectoryKind::at(i);
            let d = match k {
                DirectoryKind::Root => base_dir.clone(),
                _ => join_path(base_dir.as_str(), k.name()),
            };
            dirs.push(d);
            i = i + 1;
        }
        TPath { base_dir, temporary_dirs: dirs }
    }

    /// The directory of `kind`, with `fragment` joined on where one is given.
    pub fn resolve(&self, kind: DirectoryKind, fragment: Option<&str>) -> (r: String)
        ensures
            r@ == self.resolve_spec(kind, opt_view(fragment)),
    {
        proof {
            use_type_invariant(self);
        }
        let i = kind.index();
        let dir = &self.temporary_dirs[i];
        assert(DirectoryKind::spec_at(i as int) == kind);
        match fragment {
            Some(p) => join_path(dir.as_str(), p),
            None => dir.clone(),
        }
    }

    /// The base directory, with `path` joined on where one is given.
    pub fn root(&self, path: Option<&str>) -> (r: String)
        ensures
            r@ == self.resolve_spec(DirectoryKind::Root, opt_view(path)),
    {
        self.resolve(DirectoryKind::Root, path)
    }

    /// The logs directory, with `path` joined on where one is given.
    pub fn logs(&self, path: Option<&str>) -> (r: String)
        ensures
            r@ == self.resolve_spec(DirectoryKind::Logs, opt_view(path)),
    {
        self.resolve(DirectoryKind::Logs, path)
    }

    /// The scripts directory, with `path` joined on where one is given.
    pub fn scripts(&self, path: Option<&str>) -> (r: String)
        ensures
            r@ == self.resolve_spec(DirectoryKind::Scripts, opt_view(path)),
    {
        self.resolve(DirectoryKind::Scripts, path)
    }

    /// The public directory, with `path` joined on where one is given.
    pub fn public(&self, path: Option<&str>) -> (r: String)
        ensures
            r@ == self.resolve_spec(DirectoryKind::Public, opt_view(path)),
    {
        self.resolve(DirectoryKind::Public, path)
    }

    /// The private directory, with `path` joined on where one is given.
    pub fn private(&self, path: Option<&str>) -> (r: String)
        ensures
            r@ == self.resolve_spec(DirectoryKind::Private, opt_view(path)),
    {
        self.resolve(DirectoryKind::Private, path)
    }

    /// The databases directory, with `path` joined on where one is given.
    pub fn databases(&self, path: Option<&str>) -> (r: String)
        ensures
            r@ == self.resolve_spec(DirectoryKind::Databases, opt_view(path)),
    {
        self.resolve(DirectoryKind::Databases, path)
    }

    /// The plugins directory, with `path` joined on where one is given.
    pub fn plugins(&self, path: Option<&str>) -> (r: String)
        ensures
            r@ == self.resolve_spec(DirectoryKind::Plugins, opt_view(path)),
    {
        self.resolve(DirectoryKind::Plugins, path)
    }

    /// The templates directory, with `path` joined on where one is given.
    pub fn templates(&self, path: Option<&str>) -> (r: String)
        ensures
            r@ == self.resolve_spec(DirectoryKind::Templates, opt_view(path)),
    {
        self.resolve(DirectoryKind::Templates, path)
    }

    /// The flowstreams directory, with `path` joined on where one is given.
    pub fn flowstreams(&self, path: Option<&str>) -> (r: String)
        ensures
            r@ == self.resolve_spec(DirectoryKind::Flowstreams, opt_view(path)),
    {
        self.resolve(DirectoryKind::Flowstreams, path)
    }

    /// The modules directory, with `path` joined on where one is given.
    pub fn modules(&self, path: Option<&str>) -> (r: String)
        ensures
            r@ == self.resolve_spec(DirectoryKind::Modules, opt_view(path)),
    {
        self.resolve(DirectoryKind::Modules, path)
    }

    /// The temporary directory, with `path` joined on where one is given.
    pub fn tmp(&self, path: Option<&str>) -> (r: String)
        ensures
            r@ == self.resolve_spec(DirectoryKind::Tmp, opt_view(path)),
    {
        self.resolve(DirectoryKind::Tmp, path)
    }

    /// Another name for `tmp`.
    pub fn temp(&self, path: Option<&str>) -> (r: String)
        ensures
            r@ == self.resolve_spec(DirectoryKind::Tmp, opt_view(path)),
    {
        self.tmp(path)
    }

    /// The directory registered under `dir_type`, with `path` joined on where
    /// one is given. Every kind but `root` is registered; for any other name
    /// the base directory is returned as it is.
    pub fn directory(&self, dir_type: &str, path: Option<&str>) -> (r: String)
        ensures
            match kind_of_name(dir_type@) {
                Some(k) if k != DirectoryKind::Root => r@ == self.resolve_spec(k, opt_view(path)),
                _ => r@ == self.base(),
            },
    {
        match kind_from_name(dir_type) {
            Some(DirectoryKind::Root) => self.root(None),
            Some(k) => self.resolve(k, path),
            None => self.root(None),
        }
    }

    /// Routes a logical path in the context of a directory name:
    /// - a path that starts with `~` is taken as it stands, without the `~`;
    /// - a path that starts with `_` and holds a `/` is plugin-scoped: it goes
    ///   under the plugins directory as `<plugin>/<directory>/<rest>` (see
    ///   `plugin_fragment`), and never leaves it, whatever the plugin name;
    /// - else it is joined onto the directory of that name, and an unknown
    ///   name gives the base directory.
    pub fn route(&self, path: &str, directory: &str) -> (r: String)
        ensures
            r@ == self.route_spec(path@, directory@),
            is_plugin_path(path@) && path@[0] != '~' ==> r@.len() > self.dir_of(DirectoryKind::Plugins).len()
                && r@.subrange(0, with_separator(self.dir_of(DirectoryKind::Plugins)).len() as int)
                == with_separator(self.dir_of(DirectoryKind::Plugins)),
    {
        if starts_with_char(path, '~') {
            let n = path.unicode_len();
            return path.substring_char(1, n).to_owned();
        }
        if starts_with_char(path, '_') {
            let n = path.unicode_len();
            let tmp = path.substring_char(1, n);
            assert(tmp@ == path@.drop_first());
            if let Some(index) = find_char(tmp, '/') {
                let m = n - 1;
                let mut fragment = String::from_str(tmp.substring_char(0, index));
                push_char(&mut fragment, '/');
                if !str_eq(directory, "root") {
                    fragment.append(directory);
                }
                push_char(&mut fragment, '/');
                if index + 1 < m {
                    fragment.append(tmp.substring_char(index + 2, m));
                }
                assert(fragment@ =~= plugin_fragment(tmp@, index as int, directory@));
                let mut r = self.plugins(None);
                let ghost dir = r@;
                let k = r.as_str().unicode_len();
                if k == 0 || r.as_str().get_char(k - 1) != '/' {
                    push_char(&mut r, '/');
                }
                let ghost prefix = r@;
                assert(prefix == with_separator(dir));
                r.append(fragment.as_str());
                assert(r@.subrange(0, prefix.len() as int) =~= prefix);
                return r;
            }
        }
        match kind_from_name(directory) {
            Some(k) => self.resolve(k, Some(path)),
            None => self.root(None),
        }
    }
}

/// A path that starts with `~` routes to itself without the `~`, whatever
/// the directory context.
pub proof fn lemma_absolute_route_ignores_directory(
    paths: TPath,
    path: Seq<char>,
    directory: Seq<char>,
    other: Seq<char>,
)
    requires
        path.len() > 0,
        path[0] == '~',
    ensures
        paths.route_spec(path, directory) == path.drop_first(),
        paths.route_spec(path, directory) == paths.route_spec(path, other),
{
}

} // verus!
