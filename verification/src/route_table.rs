//! The table of routes: from the path in a request to the file that answers it.
//!
//! The table is built once, from the files found under the served directory,
//! and only read afterwards. Every route begins with `/`: it is the path of a
//! file, or of the directory that holds it, as seen from the served directory.

use crate::http_resource::{FileMetadata, HttpResource, HttpResourceView};
use crate::mime::MimeTable;
use crate::text::{chars_to_string, matches_at, same_chars, starts_with, to_chars};
use crate::DirectoryReadError;
use vstd::hash_map::StringHashMap;
use vstd::prelude::*;
use vstd::string::*;

verus! {

/// One file found under the served directory, as it was read.
pub struct FileEntry {
    /// The canonical absolute path of the file.
    pub path: String,
    /// The canonical absolute path of the directory that holds the file.
    pub parent: String,
    /// The extension of the file's name, if it has one.
    pub extension: Option<String>,
    pub metadata: FileMetadata,
    /// The content of the file.
    pub data: Vec<u8>,
}

/// What a `FileEntry` holds, as mathematical values.
pub struct FileEntryView {
    pub path: Seq<char>,
    pub parent: Seq<char>,
    pub extension: Option<Seq<char>>,
    pub metadata: FileMetadata,
    pub data: Seq<u8>,
}

impl View for FileEntry {
    type V = FileEntryView;

    open spec fn view(&self) -> FileEntryView {
        FileEntryView {
            path: self.path@,
            parent: self.parent@,
            extension: match self.extension {
                Some(extension) => Some(extension@),
                None => None,
            },
            metadata: self.metadata,
            data: self.data@,
        }
    }
}

/// What each of a sequence of entries holds.
pub open spec fn entry_views(entries: Seq<FileEntry>) -> Seq<FileEntryView> {
    entries.map_values(|entry: FileEntry| entry@)
}

/// Why a file could not be given its route.
#[derive(Debug, Clone, Copy, PartialEq, Eq, Structural)]
pub enum RouteFailure {
    /// The file does not lie under the served directory.
    OutsideRoot,
    /// The table already has the file's route.
    DuplicateRoute,
    /// The table of MIME types does not know the file's extension.
    UnknownExtension,
}

/// The message of the error for each failure.
pub open spec fn route_failure_message(failure: RouteFailure) -> Seq<char> {
    match failure {
        RouteFailure::OutsideRoot => "A file lies outside the served directory."@,
        RouteFailure::DuplicateRoute =>
            "Route already exists. Do you have two html files in the same directory?"@,
        RouteFailure::UnknownExtension => "No MIME type is known for a file's extension."@,
    }
}

/// The served directory as it is written, without the slashes at its end.
pub open spec fn served_root(root_dir: Seq<char>) -> Seq<char>
    decreases root_dir.len(),
{
    if root_dir.len() > 0 && root_dir.last() == '/' {
        served_root(root_dir.drop_last())
    } else {
        root_dir
    }
}

/// Whether `path` lies under the served directory: it is the directory's
/// path, a slash, and whatever follows.
pub open spec fn is_below(path: Seq<char>, root_dir: Seq<char>) -> bool {
    starts_with(path, served_root(root_dir).push('/'))
}

/// Whether `path` is the served directory or lies under it.
pub open spec fn is_at_or_below(path: Seq<char>, root_dir: Seq<char>) -> bool {
    path == served_root(root_dir) || is_below(path, root_dir)
}

/// Whether a file lies under the served directory, and the directory that
/// holds it is the served directory or lies under it.
pub open spec fn entry_below(entry: FileEntryView, root_dir: Seq<char>) -> bool {
    is_below(entry.path, root_dir) && is_at_or_below(entry.parent, root_dir)
}

/// `path` as seen from the served directory: what follows the directory's
/// path.
pub open spec fn relative(path: Seq<char>, root_dir: Seq<char>) -> Seq<char> {
    path.skip(served_root(root_dir).len() as int)
}

/// The route of a file with the given extension. An `html` file answers for
/// the directory that holds it, any other file for its own path; either path
/// is taken as seen from the served directory. The served directory itself
/// has the route `/`.
pub open spec fn route_of(
    path: Seq<char>,
    parent: Seq<char>,
    extension: Seq<char>,
    root_dir: Seq<char>,
) -> Seq<char> {
    if extension == "html"@ {
        let route = relative(parent, root_dir);
        if route.len() == 0 {
            "/"@
        } else {
            route
        }
    } else {
        relative(path, root_dir)
    }
}

/// The resource made of an entry whose extension is `extension`.
pub open spec fn resource_of(
    entry: FileEntryView,
    extension: Seq<char>,
    mime_types: Map<Seq<char>, Seq<char>>,
) -> HttpResourceView {
    HttpResourceView {
        mime_type: mime_types[extension],
        file_ext: extension,
        metadata: entry.metadata,
        file_data: entry.data,
    }
}

/// The route of a file: none for a file without an extension, and a failure
/// for a file that has one and does not lie under the served directory.
pub open spec fn file_route_of(entry: FileEntryView, root_dir: Seq<char>) -> Result<
    Option<Seq<char>>,
    RouteFailure,
> {
    match entry.extension {
        None => Ok(None),
        Some(extension) => if entry_below(entry, root_dir) {
            Ok(Some(route_of(entry.path, entry.parent, extension, root_dir)))
        } else {
            Err(RouteFailure::OutsideRoot)
        },
    }
}

/// The route and the resource of a file: none for a file without an
/// extension, and a failure for a file that does not lie under the served
/// directory or whose extension has no MIME type.
pub open spec fn routed_file_of(
    entry: FileEntryView,
    root_dir: Seq<char>,
    mime_types: Map<Seq<char>, Seq<char>>,
) -> Result<Option<(Seq<char>, HttpResourceView)>, RouteFailure> {
    match file_route_of(entry, root_dir) {
        Err(failure) => Err(failure),
        Ok(None) => Ok(None),
        Ok(Some(route)) => if mime_types.contains_key(entry.extension->0) {
            Ok(Some((route, resource_of(entry, entry.extension->0, mime_types))))
        } else {
            Err(RouteFailure::UnknownExtension)
        },
    }
}

/// The table after one more file, and the failure, if there is one. A file
/// without an extension is passed over. A file with one must lie under the
/// served directory; its route must be new to the table; and its extension
/// must have a MIME type. They are looked at in this order, and on a failure
/// the table stays as it was.
pub open spec fn route_added(
    table: Map<Seq<char>, HttpResourceView>,
    entry: FileEntryView,
    root_dir: Seq<char>,
    mime_types: Map<Seq<char>, Seq<char>>,
) -> (Map<Seq<char>, HttpResourceView>, Option<RouteFailure>) {
    match file_route_of(entry, root_dir) {
        Err(failure) => (table, Some(failure)),
        Ok(None) => (table, None),
        Ok(Some(route)) => if table.contains_key(route) {
            (table, Some(RouteFailure::DuplicateRoute))
        } else if !mime_types.contains_key(entry.extension->0) {
            (table, Some(RouteFailure::UnknownExtension))
        } else {
            (table.insert(route, resource_of(entry, entry.extension->0, mime_types)), None)
        },
    }
}

/// The table after the files have been added in turn, up to the first
/// failure, and that failure, if there is one.
pub open spec fn routes_after(
    table: Map<Seq<char>, HttpResourceView>,
    entries: Seq<FileEntryView>,
    root_dir: Seq<char>,
    mime_types: Map<Seq<char>, Seq<char>>,
) -> (Map<Seq<char>, HttpResourceView>, Option<RouteFailure>)
    decreases entries.len(),
{
    if entries.len() == 0 {
        (table, None)
    } else {
        let added = route_added(table, entries[0], root_dir, mime_types);
        if added.1 is Some {
            added
        } else {
            routes_after(added.0, entries.drop_first(), root_dir, mime_types)
        }
    }
}

/// Whether every route of the table begins with `/`.
pub open spec fn slashed(table: Map<Seq<char>, HttpResourceView>) -> bool {
    forall|route: Seq<char>| #[trigger]
        table.contains_key(route) ==> route.len() > 0 && route[0] == '/'
}

/// What each of a map's resources holds.
pub open spec fn resource_views(table: Map<Seq<char>, HttpResource>) -> Map<
    Seq<char>,
    HttpResourceView,
> {
    table.map_values(|resource: HttpResource| resource@)
}

/// The table of routes.
pub struct RouteTable {
    routes: StringHashMap<HttpResource>,
}

impl View for RouteTable {
    type V = Map<Seq<char>, HttpResourceView>;

    closed spec fn view(&self) -> Map<Seq<char>, HttpResourceView> {
        resource_views(self.routes@)
    }
}

impl RouteTable {
    /// The empty table.
    pub fn new() -> (table: RouteTable)
        ensures
            table@ == Map::<Seq<char>, HttpResourceView>::empty(),
    {
        let table = RouteTable { routes: StringHashMap::new() };
        assert(table@ =~= Map::<Seq<char>, HttpResourceView>::empty());
        table
    }

    /// Whether the table has the route.
    pub fn contains(&self, route: &str) -> (r: bool)
        ensures
            r == self@.contains_key(route@),
    {
        self.routes.contains_key(route)
    }

    /// The resource at a route, if the table has the route.
    pub fn get(&self, route: &str) -> (r: Option<&HttpResource>)
        ensures
            match r {
                Some(resource) => self@.contains_key(route@) && resource@ == self@[route@],
                None => !self@.contains_key(route@),
            },
    {
        self.routes.get(route)
    }

    /// Registers a resource at a route.
    fn insert(&mut self, route: String, resource: HttpResource)
        ensures
            final(self)@ == old(self)@.insert(route@, resource@),
    {
        self.routes.insert(route, resource);
        assert(self@ =~= old(self)@.insert(route@, resource@));
    }
}

/// The error that tells of a failure.
pub fn route_error(failure: RouteFailure) -> (error: DirectoryReadError)
    ensures
        error.msg@ == route_failure_message(failure),
{
    match failure {
        RouteFailure::OutsideRoot => DirectoryReadError {
            msg: String::from_str("A file lies outside the served directory."),
        },
        RouteFailure::DuplicateRoute => DirectoryReadError {
            msg: String::from_str(
                "Route already exists. Do you have two html files in the same directory?",
            ),
        },
        RouteFailure::UnknownExtension => DirectoryReadError {
            msg: String::from_str("No MIME type is known for a file's extension."),
        },
    }
}

/// The served directory as it is written, without the slashes at its end.
pub fn served_root_chars(root_dir: &str) -> (root: Vec<char>)
    ensures
        root@ == served_root(root_dir@),
{
    let mut root = to_chars(root_dir);
    loop
        invariant
            served_root(root@) == served_root(root_dir@),
        ensures
            root@ == served_root(root_dir@),
        decreases root.len(),
    {
        let n = root.len();
        if n == 0 || root[n - 1] != '/' {
            break;
        }
        root.pop();
    }
    root
}

/// Whether `path` begins with `root` and a slash.
fn begins_below(path: &Vec<char>, root: &Vec<char>) -> (r: bool)
    ensures
        r == starts_with(path@, root@.push('/')),
{
    let n = root.len();
    if matches_at(path, root, 0) && path.len() > n && path[n] == '/' {
        assert(path@.subrange(0, n + 1) =~= path@.subrange(0, n as int).push('/'));
        true
    } else {
        proof {
            if starts_with(path@, root@.push('/')) {
                let prefix = path@.subrange(0, n + 1);
                assert(prefix[n as int] == '/');
                assert(path@.subrange(0, n as int) =~= prefix.take(n as int));
                assert(root@.push('/').take(n as int) =~= root@);
            }
        }
        false
    }
}

/// `path` from index `from` on, as a string.
fn rest_of(path: &Vec<char>, from: usize) -> (r: String)
    requires
        from <= path.len(),
    ensures
        r@ == path@.skip(from as int),
{
    let r = chars_to_string(path, from, path.len());
    assert(path@.subrange(from as int, path@.len() as int) =~= path@.skip(from as int));
    r
}

/// The route of one file: none for a file without an extension, and an error
/// for a file that has one and does not lie under the served directory.
pub fn file_route(entry: &FileEntry, root_dir: &str) -> (r: Result<
    Option<String>,
    DirectoryReadError,
>)
    ensures
        match r {
            Ok(Some(route)) => file_route_of(entry@, root_dir@) == Ok::<
                Option<Seq<char>>,
                RouteFailure,
            >(Some(route@)),
            Ok(None) => file_route_of(entry@, root_dir@) == Ok::<Option<Seq<char>>, RouteFailure>(
                None,
            ),
            Err(error) => file_route_of(entry@, root_dir@) matches Err(failure) && error.msg@
                == route_failure_message(failure),
        },
{
    match &entry.extension {
        None => Ok(None),
        Some(extension) => {
            let root = served_root_chars(root_dir);
            let path = to_chars(entry.path.as_str());
            let parent = to_chars(entry.parent.as_str());
            let below = begins_below(&path, &root) && (same_chars(&parent, &root) || begins_below(
                &parent,
                &root,
            ));
            if !below {
                return Err(route_error(RouteFailure::OutsideRoot));
            }
            if same_chars(&to_chars(extension.as_str()), &to_chars("html")) {
                if same_chars(&parent, &root) {
                    assert(relative(parent@, root_dir@).len() == 0);
                    Ok(Some(String::from_str("/")))
                } else {
                    let route = rest_of(&parent, root.len());
                    assert(route@.len() > 0);
                    Ok(Some(route))
                }
            } else {
                Ok(Some(rest_of(&path, root.len())))
            }
        },
    }
}

/// The route and the resource of one file: none for a file without an
/// extension, and an error for a file that does not lie under the served
/// directory or whose extension the table of MIME types does not know.
pub fn file_to_route(entry: FileEntry, root_dir: &str, mimetable: &MimeTable) -> (r: Result<
    Option<(String, HttpResource)>,
    DirectoryReadError,
>)
    ensures
        match r {
            Ok(Some(routed)) => routed_file_of(entry@, root_dir@, mimetable@) == Ok::<
                Option<(Seq<char>, HttpResourceView)>,
                RouteFailure,
            >(Some((routed.0@, routed.1@))),
            Ok(None) => routed_file_of(entry@, root_dir@, mimetable@) == Ok::<
                Option<(Seq<char>, HttpResourceView)>,
                RouteFailure,
            >(None),
            Err(error) => routed_file_of(entry@, root_dir@, mimetable@) matches Err(failure)
                && error.msg@ == route_failure_message(failure),
        },
{
    let route = match file_route(&entry, root_dir) {
        Err(error) => {
            return Err(error);
        },
        Ok(None) => {
            return Ok(None);
        },
        Ok(Some(route)) => route,
    };
    match entry.extension {
        None => Ok(None),
        Some(extension) => match mimetable.lookup(extension.as_str()) {
            None => Err(route_error(RouteFailure::UnknownExtension)),
            Some(mime_type) => {
                let resource = HttpResource::new(
                    entry.data,
                    entry.metadata,
                    extension.as_str(),
                    mime_type.as_str(),
                );
                Ok(Some((route, resource)))
            },
        },
    }
}

/// Adds the files to the table, in their order, and stops with an error at
/// the first that cannot be added: a file outside the served directory, a
/// file whose route the table already has, or a file whose extension has no
/// MIME type. What was added before stays in the table.
pub fn add_routes(
    entries: Vec<FileEntry>,
    map: &mut RouteTable,
    root_dir: &str,
    mimetable: &MimeTable,
) -> (r: Result<(), DirectoryReadError>)
    ensures
        final(map)@ == routes_after(old(map)@, entry_views(entries@), root_dir@, mimetable@).0,
        match r {
            Ok(_) => routes_after(old(map)@, entry_views(entries@), root_dir@, mimetable@).1
                is None,
            Err(error) => routes_after(
                old(map)@,
                entry_views(entries@),
                root_dir@,
                mimetable@,
            ).1 matches Some(failure) && error.msg@ == route_failure_message(failure),
        },
        slashed(old(map)@) ==> slashed(final(map)@),
{
    let ghost all = entry_views(entries@);
    assert(all.skip(0) =~= all);
    proof {
        if slashed(old(map)@) {
            lemma_routes_slashed(old(map)@, all, root_dir@, mimetable@);
        }
    }
    for entry in it: entries
        invariant
            all == entry_views(it.seq()),
            slashed(old(map)@) ==> slashed(
                routes_after(old(map)@, all, root_dir@, mimetable@).0,
            ),
            routes_after(old(map)@, all, root_dir@, mimetable@) == routes_after(
                map@,
                all.skip(it.index() as int),
                root_dir@,
                mimetable@,
            ),
    {
        let ghost i = it.index() as int;
        assert(all.skip(i)[0] == all[i]);
        assert(all.skip(i).drop_first() =~= all.skip(i + 1));
        assert(all[i] == entry@);
        match file_route(&entry, root_dir) {
            Err(error) => {
                return Err(error);
            },
            Ok(None) => {},
            Ok(Some(route)) => {
                if map.contains(route.as_str()) {
                    return Err(route_error(RouteFailure::DuplicateRoute));
                }
                match file_to_route(entry, root_dir, mimetable) {
                    Err(error) => {
                        return Err(error);
                    },
                    Ok(None) => {},
                    Ok(Some(routed)) => {
                        map.insert(routed.0, routed.1);
                    },
                }
            },
        }
    }
    Ok(())
}

/// Builds the table of routes from the files found under the served
/// directory, which may be written with or without a slash at its end. Every
/// route of the table begins with `/`.
pub fn build_route_table(entries: Vec<FileEntry>, root_dir: &str, mimetable: &MimeTable) -> (r:
    Result<RouteTable, DirectoryReadError>)
    ensures
        match r {
            Ok(table) => {
                &&& routes_after(Map::empty(), entry_views(entries@), root_dir@, mimetable@).1
                    is None
                &&& table@ == routes_after(
                    Map::empty(),
                    entry_views(entries@),
                    root_dir@,
                    mimetable@,
                ).0
                &&& forall|route: Seq<char>| #[trigger]
                    table@.contains_key(route) ==> route.len() > 0 && route[0] == '/'
            },
            Err(error) => routes_after(
                Map::empty(),
                entry_views(entries@),
                root_dir@,
                mimetable@,
            ).1 matches Some(failure) && error.msg@ == route_failure_message(failure),
        },
{
    let mut route_map = RouteTable::new();
    match add_routes(entries, &mut route_map, root_dir, mimetable) {
        Ok(()) => Ok(route_map),
        Err(error) => Err(error),
    }
}

/// The route of a file that lies under the served directory begins with `/`.
pub proof fn lemma_route_slashed(entry: FileEntryView, extension: Seq<char>, root_dir: Seq<char>)
    requires
        entry_below(entry, root_dir),
    ensures
        route_of(entry.path, entry.parent, extension, root_dir).len() > 0,
        route_of(entry.path, entry.parent, extension, root_dir)[0] == '/',
{
    reveal_strlit("/");
    let root = served_root(root_dir);
    let n = root.len() as int;
    assert(root.push('/')[n] == '/');
    if is_below(entry.parent, root_dir) {
        assert(entry.parent.subrange(0, n + 1)[n] == entry.parent[n]);
    }
    assert(entry.path.subrange(0, n + 1)[n] == entry.path[n]);
}

/// A table whose routes begin with `/` has such routes after files have been
/// added, whether all of them were added or not.
pub proof fn lemma_routes_slashed(
    table: Map<Seq<char>, HttpResourceView>,
    entries: Seq<FileEntryView>,
    root_dir: Seq<char>,
    mime_types: Map<Seq<char>, Seq<char>>,
)
    requires
        slashed(table),
    ensures
        slashed(routes_after(table, entries, root_dir, mime_types).0),
    decreases entries.len(),
{
    if entries.len() > 0 {
        let added = route_added(table, entries[0], root_dir, mime_types);
        if added.1 is None {
            if entries[0].extension is Some {
                lemma_route_slashed(entries[0], entries[0].extension->0, root_dir);
            }
            lemma_routes_slashed(added.0, entries.drop_first(), root_dir, mime_types);
        }
    }
}

/// Whether the entry at index `i` has a route: it is there, and it has an
/// extension.
pub open spec fn routable(entries: Seq<FileEntryView>, i: int) -> bool {
    0 <= i < entries.len() && entries[i].extension is Some
}

/// The route of the entry at index `i`.
pub open spec fn route_at(entries: Seq<FileEntryView>, root_dir: Seq<char>, i: int) -> Seq<char> {
    route_of(entries[i].path, entries[i].parent, entries[i].extension->0, root_dir)
}

/// The resource of the entry at index `i`.
pub open spec fn resource_at(
    entries: Seq<FileEntryView>,
    mime_types: Map<Seq<char>, Seq<char>>,
    i: int,
) -> HttpResourceView {
    resource_of(entries[i], entries[i].extension->0, mime_types)
}

/// Whether the entry at index `i`, if it has an extension, lies under the
/// served directory and has an extension with a MIME type.
pub open spec fn well_placed_at(
    entries: Seq<FileEntryView>,
    root_dir: Seq<char>,
    mime_types: Map<Seq<char>, Seq<char>>,
    i: int,
) -> bool {
    routable(entries, i) ==> entry_below(entries[i], root_dir) && mime_types.contains_key(
        entries[i].extension->0,
    )
}

/// Whether each entry that has an extension lies under the served directory
/// and has an extension with a MIME type.
pub open spec fn well_placed(
    entries: Seq<FileEntryView>,
    root_dir: Seq<char>,
    mime_types: Map<Seq<char>, Seq<char>>,
) -> bool {
    forall|i: int| well_placed_at(entries, root_dir, mime_types, i)
}

/// Whether the entry at index `i` has a route that the table holds.
pub open spec fn route_taken(
    table: Map<Seq<char>, HttpResourceView>,
    entries: Seq<FileEntryView>,
    root_dir: Seq<char>,
    i: int,
) -> bool {
    routable(entries, i) && table.contains_key(route_at(entries, root_dir, i))
}

/// Whether the entries at the indices `i` and `j` are two entries with one
/// route.
pub open spec fn same_route(
    entries: Seq<FileEntryView>,
    root_dir: Seq<char>,
    i: int,
    j: int,
) -> bool {
    &&& i < j
    &&& routable(entries, i)
    &&& routable(entries, j)
    &&& route_at(entries, root_dir, i) == route_at(entries, root_dir, j)
}

/// Whether some entry has a route that the table holds, or two entries have
/// one route.
pub open spec fn collides(
    table: Map<Seq<char>, HttpResourceView>,
    entries: Seq<FileEntryView>,
    root_dir: Seq<char>,
) -> bool {
    ||| exists|i: int| route_taken(table, entries, root_dir, i)
    ||| exists|i: int, j: int| same_route(entries, root_dir, i, j)
}

/// Whether `route` is the route of one of the entries.
pub open spec fn routed(
    entries: Seq<FileEntryView>,
    root_dir: Seq<char>,
    route: Seq<char>,
) -> bool {
    exists|i: int| routable(entries, i) && #[trigger] route_at(entries, root_dir, i) == route
}

/// What adding entries to a table comes to.
///
/// Adding succeeds exactly when each entry that has an extension lies under
/// the served directory and has an extension with a MIME type, no entry's
/// route is in the table already, and no two entries have one route. When it
/// succeeds, the table has the routes it had, with their resources, and the
/// route of each entry that has an extension, with that entry's resource,
/// and no other route.
pub proof fn lemma_routes_after(
    table: Map<Seq<char>, HttpResourceView>,
    entries: Seq<FileEntryView>,
    root_dir: Seq<char>,
    mime_types: Map<Seq<char>, Seq<char>>,
)
    ensures
        routes_after(table, entries, root_dir, mime_types).1 is None <==> well_placed(
            entries,
            root_dir,
            mime_types,
        ) && !collides(table, entries, root_dir),
        routes_after(table, entries, root_dir, mime_types).1 is None ==> {
            let built = routes_after(table, entries, root_dir, mime_types).0;
            &&& forall|route: Seq<char>|
                built.contains_key(route) <==> table.contains_key(route) || routed(
                    entries,
                    root_dir,
                    route,
                )
            &&& forall|route: Seq<char>|
                table.contains_key(route) ==> built[route] == table[route]
            &&& forall|i: int|
                routable(entries, i) ==> built[#[trigger] route_at(entries, root_dir, i)]
                    == resource_at(entries, mime_types, i)
        },
    decreases entries.len(),
{
    if entries.len() > 0 {
        let rest = entries.drop_first();
        let added = route_added(table, entries[0], root_dir, mime_types);
        let next = added.0;
        assert forall|i: int| 1 <= i implies routable(entries, i) == routable(rest, i - 1) by {
            if i < entries.len() {
                assert(rest[i - 1] == entries[i]);
            }
        }
        assert forall|i: int| 1 <= i < entries.len() implies route_at(entries, root_dir, i)
            == route_at(rest, root_dir, i - 1) && resource_at(entries, mime_types, i)
            == resource_at(rest, mime_types, i - 1) && well_placed_at(
            entries,
            root_dir,
            mime_types,
            i,
        ) == well_placed_at(rest, root_dir, mime_types, i - 1) by {
            assert(rest[i - 1] == entries[i]);
        }
        if added.1 is Some {
            if routable(entries, 0) && entry_below(entries[0], root_dir) && table.contains_key(
                route_at(entries, root_dir, 0),
            ) {
                assert(route_taken(table, entries, root_dir, 0));
            } else {
                assert(!well_placed_at(entries, root_dir, mime_types, 0));
            }
        } else {
            lemma_routes_after(next, rest, root_dir, mime_types);
            assert(well_placed_at(entries, root_dir, mime_types, 0));
            // The rest is well placed exactly when all are.
            if well_placed(rest, root_dir, mime_types) {
                assert forall|i: int| well_placed_at(entries, root_dir, mime_types, i) by {
                    if 1 <= i < entries.len() {
                        assert(well_placed_at(rest, root_dir, mime_types, i - 1));
                    }
                }
            }
            if well_placed(entries, root_dir, mime_types) {
                assert forall|i: int| well_placed_at(rest, root_dir, mime_types, i) by {
                    if 0 <= i < rest.len() {
                        assert(well_placed_at(entries, root_dir, mime_types, i + 1));
                    }
                }
            }
            // A collision among the rest is a collision among all, and the other way round.
            if collides(next, rest, root_dir) {
                if exists|i: int| route_taken(next, rest, root_dir, i) {
                    let i = choose|i: int| route_taken(next, rest, root_dir, i);
                    if table.contains_key(route_at(rest, root_dir, i)) {
                        assert(route_taken(table, entries, root_dir, i + 1));
                    } else {
                        assert(same_route(entries, root_dir, 0, i + 1));
                    }
                } else {
                    let (i, j) = choose|i: int, j: int| same_route(rest, root_dir, i, j);
                    assert(same_route(entries, root_dir, i + 1, j + 1));
                }
            }
            if collides(table, entries, root_dir) {
                if exists|i: int| route_taken(table, entries, root_dir, i) {
                    let i = choose|i: int| route_taken(table, entries, root_dir, i);
                    assert(route_taken(next, rest, root_dir, i - 1));
                } else {
                    let (i, j) = choose|i: int, j: int| same_route(entries, root_dir, i, j);
                    if i == 0 {
                        assert(route_taken(next, rest, root_dir, j - 1));
                    } else {
                        assert(same_route(rest, root_dir, i - 1, j - 1));
                    }
                }
            }
            if routes_after(table, entries, root_dir, mime_types).1 is None {
                let built = routes_after(table, entries, root_dir, mime_types).0;
                assert forall|route: Seq<char>|
                    built.contains_key(route) <==> table.contains_key(route) || routed(
                        entries,
                        root_dir,
                        route,
                    ) by {
                    if routed(rest, root_dir, route) {
                        let i = choose|i: int|
                            routable(rest, i) && #[trigger] route_at(rest, root_dir, i) == route;
                        assert(routable(entries, i + 1));
                        assert(route_at(entries, root_dir, i + 1) == route);
                    }
                    if routed(entries, root_dir, route) {
                        let i = choose|i: int|
                            routable(entries, i) && #[trigger] route_at(entries, root_dir, i)
                                == route;
                        if i > 0 {
                            assert(routable(rest, i - 1));
                            assert(route_at(rest, root_dir, i - 1) == route);
                        }
                    }
                    if routable(entries, 0) && route_at(entries, root_dir, 0) == route {
                        assert(routed(entries, root_dir, route));
                    }
                }
                assert forall|i: int| routable(entries, i) implies built[#[trigger] route_at(
                    entries,
                    root_dir,
                    i,
                )] == resource_at(entries, mime_types, i) by {
                    if i > 0 {
                        assert(routable(rest, i - 1));
                        assert(built[route_at(rest, root_dir, i - 1)] == resource_at(
                            rest,
                            mime_types,
                            i - 1,
                        ));
                    } else {
                        assert(next.contains_key(route_at(entries, root_dir, 0)));
                    }
                }
            }
        }
    }
}

/// Building the table succeeds exactly when each file that has an extension
/// lies under the served directory and has an extension with a MIME type,
/// and no two files have one route. When it succeeds, the table holds the
/// route of each file that has an extension, with that file's resource, and
/// nothing else, and each route begins with `/`.
pub proof fn lemma_table_built(
    entries: Seq<FileEntryView>,
    root_dir: Seq<char>,
    mime_types: Map<Seq<char>, Seq<char>>,
)
    ensures
        routes_after(Map::empty(), entries, root_dir, mime_types).1 is None <==> well_placed(
            entries,
            root_dir,
            mime_types,
        ) && !exists|i: int, j: int| same_route(entries, root_dir, i, j),
        routes_after(Map::empty(), entries, root_dir, mime_types).1 is None ==> {
            let built = routes_after(Map::empty(), entries, root_dir, mime_types).0;
            &&& forall|route: Seq<char>|
                built.contains_key(route) <==> routed(entries, root_dir, route)
            &&& forall|i: int|
                routable(entries, i) ==> built[#[trigger] route_at(entries, root_dir, i)]
                    == resource_at(entries, mime_types, i)
            &&& slashed(built)
        },
{
    lemma_routes_after(Map::empty(), entries, root_dir, mime_types);
    lemma_routes_slashed(Map::empty(), entries, root_dir, mime_types);
}

/// A file whose route the table already has is refused as a duplicate,
/// whatever the table of MIME types knows, and the table stays as it was.
pub proof fn lemma_taken_route_refused(
    table: Map<Seq<char>, HttpResourceView>,
    entry: FileEntryView,
    others: Seq<FileEntryView>,
    root_dir: Seq<char>,
    mime_types: Map<Seq<char>, Seq<char>>,
)
    requires
        entry.extension is Some,
        entry_below(entry, root_dir),
        table.contains_key(route_of(entry.path, entry.parent, entry.extension->0, root_dir)),
    ensures
        routes_after(table, seq![entry] + others, root_dir, mime_types) == (
            table,
            Some(RouteFailure::DuplicateRoute),
        ),
{
    assert((seq![entry] + others)[0] == entry);
}

/// Two files with one route are refused as a duplicate when they come one
/// after the other into a table that does not hold their route: two `html`
/// files of one directory are the case that gives the error its words.
pub proof fn lemma_two_files_one_route(
    table: Map<Seq<char>, HttpResourceView>,
    first: FileEntryView,
    second: FileEntryView,
    root_dir: Seq<char>,
    mime_types: Map<Seq<char>, Seq<char>>,
)
    requires
        first.extension is Some,
        second.extension is Some,
        entry_below(first, root_dir),
        entry_below(second, root_dir),
        mime_types.contains_key(first.extension->0),
        route_of(first.path, first.parent, first.extension->0, root_dir) == route_of(
            second.path,
            second.parent,
            second.extension->0,
            root_dir,
        ),
        !table.contains_key(route_of(first.path, first.parent, first.extension->0, root_dir)),
    ensures
        routes_after(table, seq![first, second], root_dir, mime_types).1 == Some(
            RouteFailure::DuplicateRoute,
        ),
{
    let entries = seq![first, second];
    let added = route_added(table, first, root_dir, mime_types);
    assert(entries.drop_first()[0] == second);
    assert(routes_after(table, entries, root_dir, mime_types) == routes_after(
        added.0,
        entries.drop_first(),
        root_dir,
        mime_types,
    ));
}

/// The route of a file that is no `html` file, put behind the served
/// directory's path, is the file's path; the route of an `html` file is `/`
/// for a file in the served directory itself, and else gives the path of the
/// directory that holds the file.
pub proof fn lemma_route_is_relative(
    entry: FileEntryView,
    extension: Seq<char>,
    root_dir: Seq<char>,
)
    requires
        entry_below(entry, root_dir),
    ensures
        extension != "html"@ ==> served_root(root_dir) + route_of(
            entry.path,
            entry.parent,
            extension,
            root_dir,
        ) == entry.path,
        extension == "html"@ && entry.parent == served_root(root_dir) ==> route_of(
            entry.path,
            entry.parent,
            extension,
            root_dir,
        ) == "/"@,
        extension == "html"@ && entry.parent != served_root(root_dir) ==> served_root(root_dir)
            + route_of(entry.path, entry.parent, extension, root_dir) == entry.parent,
{
    let root = served_root(root_dir);
    let n = root.len() as int;
    assert(entry.path.subrange(0, n + 1).take(n) =~= entry.path.subrange(0, n));
    assert(root.push('/').take(n) =~= root);
    assert(entry.path.subrange(0, n) + entry.path.skip(n) =~= entry.path);
    if is_below(entry.parent, root_dir) {
        assert(entry.parent.subrange(0, n + 1).take(n) =~= entry.parent.subrange(0, n));
        assert(entry.parent.subrange(0, n) + entry.parent.skip(n) =~= entry.parent);
        assert(entry.parent.len() > n);
    } else {
        assert(entry.parent.skip(n).len() == 0);
    }
}

} // verus!
