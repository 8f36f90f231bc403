//! The table from file extensions to MIME types.
//!
//! The table is read from a text with one line for each MIME type: the type,
//! a space, and the extensions that have it, with commas between them.

use crate::text::{chars_to_string, lemma_split, slice, split, split_chars, to_chars, views};
use vstd::hash_map::StringHashMap;
use vstd::prelude::*;
use vstd::string::*;

verus! {

/// `table` with each of `keys` set to `value`, the later ones over the earlier.
pub open spec fn insert_keys(
    table: Map<Seq<char>, Seq<char>>,
    keys: Seq<Seq<char>>,
    value: Seq<char>,
) -> Map<Seq<char>, Seq<char>>
    decreases keys.len(),
{
    if keys.len() == 0 {
        table
    } else {
        insert_keys(table, keys.drop_last(), value).insert(keys.last(), value)
    }
}

/// `table` after one line of the text. The line's pieces between spaces are
/// its fields: the first is the MIME type, the second the list of extensions.
/// A line with a single field says nothing.
pub open spec fn insert_line(table: Map<Seq<char>, Seq<char>>, line: Seq<char>) -> Map<
    Seq<char>,
    Seq<char>,
> {
    let fields = split(line, seq![' ']);
    if fields.len() < 2 {
        table
    } else {
        insert_keys(table, split(fields[1], seq![',']), fields[0])
    }
}

/// `table` after each of `lines` in turn.
pub open spec fn insert_lines(table: Map<Seq<char>, Seq<char>>, lines: Seq<Seq<char>>) -> Map<
    Seq<char>,
    Seq<char>,
>
    decreases lines.len(),
{
    if lines.len() == 0 {
        table
    } else {
        insert_line(insert_lines(table, lines.drop_last()), lines.last())
    }
}

/// `piece` without a carriage return at its end.
pub open spec fn strip_carriage_return(piece: Seq<char>) -> Seq<char> {
    if piece.len() > 0 && piece.last() == '\r' {
        piece.drop_last()
    } else {
        piece
    }
}

/// The lines of a text. A line ends with a line feed, or with a carriage
/// return and a line feed, which are not part of it. What follows the last
/// line feed is a line too, unless it is empty.
pub open spec fn text_lines(text: Seq<char>) -> Seq<Seq<char>> {
    let pieces = split(text, seq!['\n']);
    let ended = pieces.drop_last().map_values(|piece: Seq<char>| strip_carriage_return(piece));
    if pieces.last().len() == 0 {
        ended
    } else {
        ended.push(pieces.last())
    }
}

/// The table that a text describes.
pub open spec fn mime_table_of(text: Seq<char>) -> Map<Seq<char>, Seq<char>> {
    insert_lines(Map::empty(), text_lines(text))
}

/// The texts of a map's values.
pub open spec fn value_views(table: Map<Seq<char>, String>) -> Map<Seq<char>, Seq<char>> {
    table.map_values(|value: String| value@)
}

/// A table from file extensions to MIME types.
pub struct MimeTable {
    table: StringHashMap<String>,
}

impl View for MimeTable {
    type V = Map<Seq<char>, Seq<char>>;

    closed spec fn view(&self) -> Map<Seq<char>, Seq<char>> {
        value_views(self.table@)
    }
}

impl MimeTable {
    /// The empty table.
    pub fn new() -> (table: MimeTable)
        ensures
            table@ == Map::<Seq<char>, Seq<char>>::empty(),
    {
        let table = MimeTable { table: StringHashMap::new() };
        assert(table@ =~= Map::<Seq<char>, Seq<char>>::empty());
        table
    }

    /// Sets the MIME type of an extension.
    pub fn insert(&mut self, extension: String, mime_type: String)
        ensures
            final(self)@ == old(self)@.insert(extension@, mime_type@),
    {
        self.table.insert(extension, mime_type);
        assert(self@ =~= old(self)@.insert(extension@, mime_type@));
    }

    /// Whether the table knows the extension.
    pub fn contains(&self, extension: &str) -> (r: bool)
        ensures
            r == self@.contains_key(extension@),
    {
        self.table.contains_key(extension)
    }

    /// The MIME type of an extension, if the table knows it.
    pub fn lookup(&self, extension: &str) -> (r: Option<String>)
        ensures
            match r {
                Some(mime_type) => self@.contains_key(extension@) && mime_type@
                    == self@[extension@],
                None => !self@.contains_key(extension@),
            },
    {
        match self.table.get(extension) {
            Some(mime_type) => Some(mime_type.clone()),
            None => None,
        }
    }
}

/// The lines of a text.
pub fn lines_of(text: &str) -> (lines: Vec<Vec<char>>)
    ensures
        views(lines@) == text_lines(text@),
{
    let chars = to_chars(text);
    let line_feed: Vec<char> = vec!['\n'];
    assert(line_feed@ =~= seq!['\n']);
    let mut pieces = split_chars(&chars, &line_feed);
    let ghost all = views(pieces@);
    assert(all.len() > 0) by {
        lemma_split(chars@, line_feed@);
    }
    let last = pieces.pop().unwrap();
    assert(views(pieces@) =~= all.drop_last());
    assert(last@ == all.last());
    let mut lines: Vec<Vec<char>> = Vec::new();
    let mut i: usize = 0;
    while i < pieces.len()
        invariant
            i <= pieces.len(),
            views(lines@) == views(pieces@).take(i as int).map_values(
                |piece: Seq<char>| strip_carriage_return(piece),
            ),
        decreases pieces.len() - i,
    {
        let piece = &pieces[i];
        let ghost before = views(lines@);
        let n = piece.len();
        if n > 0 && piece[n - 1] == '\r' {
            lines.push(slice(piece, 0, n - 1));
            assert(piece@.subrange(0, n - 1) =~= piece@.drop_last());
        } else {
            lines.push(slice(piece, 0, n));
            assert(piece@.subrange(0, n as int) =~= piece@);
        }
        assert(views(lines@) =~= before.push(strip_carriage_return(piece@)));
        assert(views(pieces@).take(i + 1).map_values(
            |piece: Seq<char>| strip_carriage_return(piece),
        ) =~= before.push(strip_carriage_return(piece@)));
        i += 1;
    }
    assert(views(pieces@).take(pieces@.len() as int) =~= views(pieces@));
    if last.len() > 0 {
        let ghost before = views(lines@);
        lines.push(last);
        assert(views(lines@) =~= before.push(last@));
    }
    lines
}

/// Reads the table from its text.
pub fn build_mimetype_table(mimetype_str: &str) -> (table: MimeTable)
    ensures
        table@ == mime_table_of(mimetype_str@),
{
    let lines = lines_of(mimetype_str);
    let space: Vec<char> = vec![' '];
    let comma: Vec<char> = vec![','];
    assert(space@ =~= seq![' ']);
    assert(comma@ =~= seq![',']);
    let mut table = MimeTable::new();
    let mut i: usize = 0;
    while i < lines.len()
        invariant
            i <= lines.len(),
            space@ == seq![' '],
            comma@ == seq![','],
            table@ == insert_lines(Map::empty(), views(lines@).take(i as int)),
        decreases lines.len() - i,
    {
        let ghost table_before = table@;
        let fields = split_chars(&lines[i], &space);
        assert(views(lines@)[i as int] == lines@[i as int]@);
        if fields.len() >= 2 {
            let keys = split_chars(&fields[1], &comma);
            assert(views(fields@)[0] == fields@[0]@);
            assert(views(fields@)[1] == fields@[1]@);
            let mut k: usize = 0;
            while k < keys.len()
                invariant
                    k <= keys.len(),
                    fields@.len() >= 2,
                    table@ == insert_keys(table_before, views(keys@).take(k as int), fields@[0]@),
                decreases keys.len() - k,
            {
                let key = chars_to_string(&keys[k], 0, keys[k].len());
                let value = chars_to_string(&fields[0], 0, fields[0].len());
                assert(key@ =~= keys@[k as int]@);
                assert(value@ =~= fields@[0]@);
                assert(views(keys@)[k as int] == keys@[k as int]@);
                assert(views(keys@).take(k + 1).drop_last() =~= views(keys@).take(k as int));
                table.insert(key, value);
                k += 1;
            }
            assert(views(keys@).take(keys@.len() as int) =~= views(keys@));
        }
        assert(views(lines@).take(i + 1).drop_last() =~= views(lines@).take(i as int));
        i += 1;
    }
    assert(views(lines@).take(lines@.len() as int) =~= views(lines@));
    table
}

/// The MIME type of an extension that the table knows.
pub fn get_mime_type(extension: &str, mimetable: &MimeTable) -> (mime_type: String)
    requires
        mimetable@.contains_key(extension@),
    ensures
        mime_type@ == mimetable@[extension@],
{
    match mimetable.lookup(extension) {
        Some(mime_type) => mime_type,
        None => String::new(),
    }
}

/// After `insert_keys`, each of the keys has the value, and every other key
/// is as it was.
pub proof fn lemma_insert_keys(
    table: Map<Seq<char>, Seq<char>>,
    keys: Seq<Seq<char>>,
    value: Seq<char>,
    key: Seq<char>,
)
    ensures
        keys.contains(key) ==> insert_keys(table, keys, value).contains_key(key) && insert_keys(
            table,
            keys,
            value,
        )[key] == value,
        !keys.contains(key) ==> insert_keys(table, keys, value).contains_key(key)
            == table.contains_key(key) && insert_keys(table, keys, value)[key] == table[key],
    decreases keys.len(),
{
    if keys.len() > 0 {
        lemma_insert_keys(table, keys.drop_last(), value, key);
        if keys.drop_last().contains(key) {
            let i = choose|i: int| 0 <= i < keys.drop_last().len() && keys.drop_last()[i] == key;
            assert(keys[i] == key);
        }
        if keys.contains(key) && keys.last() != key {
            let i = choose|i: int| 0 <= i < keys.len() && keys[i] == key;
            assert(keys.drop_last()[i] == key);
        }
    }
}

} // verus!
