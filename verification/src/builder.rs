//! The index builder: the statements that put a record into the backing
//! store, and the decisions of the single writer that applies them inside
//! one transaction.

use vstd::prelude::*;
use crate::text::{
    decimal, is_digit, lemma_decimal_injective, lemma_decimal_shape, replaced, str_replace,
    str_starts_with, u64_to_decimal,
};
use crate::track::{SampleInfo, SampleView, TrackInfo, TrackView};

verus! {

/// What a producer sends to the writer.
pub enum DbCommand {
    /// A statement to execute inside the open transaction.
    Insert(String),
    /// Nothing more will come.
    Quit,
}

pub ghost enum CommandView {
    Insert(Seq<char>),
    Quit,
}

impl View for DbCommand {
    type V = CommandView;

    open spec fn view(&self) -> CommandView {
        match self {
            DbCommand::Insert(sql) => CommandView::Insert(sql@),
            DbCommand::Quit => CommandView::Quit,
        }
    }
}

impl DeepView for DbCommand {
    type V = CommandView;

    open spec fn deep_view(&self) -> CommandView {
        self@
    }
}

/// A text with each single quote doubled, as it stands inside a quoted
/// literal.
pub open spec fn escaped(s: Seq<char>) -> Seq<char> {
    replaced(s, seq!['\''], seq!['\'', '\''])
}

/// A text as a quoted literal.
pub open spec fn quoted(s: Seq<char>) -> Seq<char> {
    seq!['\''] + escaped(s) + seq!['\'']
}

/// The number that the signed 64-bit column holds for a pattern digest:
/// the one with the same 64 bits in two's complement.
pub open spec fn column_value(pattern_hash: u64) -> int {
    if pattern_hash <= i64::MAX {
        pattern_hash as int
    } else {
        pattern_hash as int - 0x1_0000_0000_0000_0000
    }
}

/// A whole number in decimal, with a minus sign when it is negative.
pub open spec fn signed_decimal(v: int) -> Seq<char> {
    if v >= 0 {
        decimal(v as nat)
    } else {
        seq!['-'] + decimal((-v) as nat)
    }
}

/// The pattern digest as it is written into a statement: `NULL` for the
/// sentinel `0` and for nothing else, otherwise its column value.
pub open spec fn pattern_sql(pattern_hash: u64) -> Seq<char> {
    if pattern_hash == 0 {
        "NULL"@
    } else {
        signed_decimal(column_value(pattern_hash))
    }
}

/// The pattern digest that a value of the column stands for; an empty
/// column stands for the sentinel.
pub open spec fn pattern_of_column(value: Option<i64>) -> u64 {
    match value {
        None => 0,
        Some(v) => if v >= 0 {
            v as u64
        } else {
            (v + 0x1_0000_0000_0000_0000) as u64
        },
    }
}

/// A sample's payload digest as a column value.
pub open spec fn digest_sql(digest: Option<Seq<char>>) -> Seq<char> {
    match digest {
        Some(h) => seq!['\''] + h + seq!['\''],
        None => "NULL"@,
    }
}

/// The statement that stores a record's row.
pub open spec fn file_insert_sql(song_id: u64, t: TrackView) -> Seq<char> {
    "INSERT INTO files (song_id, hash_id, pattern_hash, url) VALUES ("@ + decimal(song_id as nat)
        + ", '"@ + t.sha256_hash + "', "@ + pattern_sql(t.pattern_hash) + ", '"@ + escaped(
        t.filename,
    ) + "')"@
}

/// The statement that stores one sample of a record.
pub open spec fn sample_insert_sql(song_id: u64, s: SampleView) -> Seq<char> {
    "INSERT INTO samples (hash_id, song_id, song_sample_id, text, length_bytes, length) VALUES ("@
        + digest_sql(s.sha256_hash) + ", "@ + decimal(song_id as nat) + ", "@ + decimal(
        s.sample_id as nat,
    ) + ", "@ + quoted(s.text) + ", "@ + decimal(s.length_bytes as nat) + ", "@ + decimal(
        s.length as nat,
    ) + ")"@
}

/// The commands that store a record: its row first, then its samples in
/// order.
pub open spec fn track_commands_spec(song_id: u64, t: TrackView) -> Seq<CommandView> {
    seq![CommandView::Insert(file_insert_sql(song_id, t))] + t.samples.map_values(
        |s: SampleView| CommandView::Insert(sample_insert_sql(song_id, s)),
    )
}

/// A path relative to the indexed root: what follows the root in a path
/// that begins with it. A path that does not begin with the root is left
/// as it is.
pub open spec fn relative_to(path: Seq<char>, root: Seq<char>) -> Seq<char> {
    if root.is_prefix_of(path) {
        path.skip(root.len() as int)
    } else {
        path
    }
}

/// Doubles the single quotes of a path.
pub fn get_url(filename: &str) -> (r: String)
    ensures
        r@ == escaped(filename@),
{
    proof {
        reveal_strlit("'");
        reveal_strlit("''");
        assert("'"@ =~= seq!['\'']);
        assert("''"@ =~= seq!['\'', '\'']);
    }
    str_replace(filename, "'", "''")
}

/// Makes a path relative to the indexed root.
pub fn relative_path(path: &str, root: &str) -> (r: String)
    ensures
        r@ == relative_to(path@, root@),
{
    if str_starts_with(path, root) {
        let from = root.unicode_len();
        let to = path.unicode_len();
        let rest = path.substring_char(from, to);
        assert(rest@ =~= path@.skip(root@.len() as int));
        rest.to_owned()
    } else {
        path.to_owned()
    }
}

fn quote(text: &str) -> (r: String)
    ensures
        r@ == quoted(text@),
{
    proof {
        reveal_strlit("'");
        assert("'"@ =~= seq!['\'']);
    }
    let mut out = "'".to_owned();
    out.append(get_url(text).as_str());
    out.append("'");
    out
}

fn pattern_column(pattern_hash: u64) -> (r: String)
    ensures
        r@ == pattern_sql(pattern_hash),
{
    if pattern_hash == 0 {
        "NULL".to_owned()
    } else if pattern_hash <= 0x7FFF_FFFF_FFFF_FFFF {
        u64_to_decimal(pattern_hash)
    } else {
        proof {
            reveal_strlit("-");
            assert("-"@ =~= seq!['-']);
        }
        let magnitude: u64 = (u64::MAX - pattern_hash) + 1;
        let mut out = "-".to_owned();
        out.append(u64_to_decimal(magnitude).as_str());
        out
    }
}

/// Reads a pattern digest back from the value of its column, `None` being
/// an empty column.
pub fn pattern_from_column(value: Option<i64>) -> (r: u64)
    ensures
        r == pattern_of_column(value),
{
    match value {
        None => 0,
        Some(v) => if v >= 0 {
            v as u64
        } else {
            u64::MAX - ((-(v + 1)) as u64)
        },
    }
}

fn digest_column(digest: &Option<String>) -> (r: String)
    ensures
        r@ == digest_sql(
            match *digest {
                Some(h) => Some(h@),
                None => None,
            },
        ),
{
    match digest {
        Some(h) => {
            proof {
                reveal_strlit("'");
                assert("'"@ =~= seq!['\'']);
            }
            let mut out = "'".to_owned();
            out.append(h.as_str());
            out.append("'");
            out
        },
        None => "NULL".to_owned(),
    }
}

/// Writes the statement that stores a record's row.
pub fn file_insert(song_id: u64, track: &TrackInfo) -> (r: String)
    ensures
        r@ == file_insert_sql(song_id, track@),
{
    let mut sql = "INSERT INTO files (song_id, hash_id, pattern_hash, url) VALUES (".to_owned();
    sql.append(u64_to_decimal(song_id).as_str());
    sql.append(", '");
    sql.append(track.sha256_hash.as_str());
    sql.append("', ");
    sql.append(pattern_column(track.pattern_hash).as_str());
    sql.append(", '");
    sql.append(get_url(track.filename.as_str()).as_str());
    sql.append("')");
    sql
}

/// Writes the statement that stores one sample.
pub fn sample_insert(song_id: u64, sample: &SampleInfo) -> (r: String)
    ensures
        r@ == sample_insert_sql(song_id, sample@),
{
    let mut sql =
        "INSERT INTO samples (hash_id, song_id, song_sample_id, text, length_bytes, length) VALUES (".to_owned();
    sql.append(digest_column(&sample.sha256_hash).as_str());
    sql.append(", ");
    sql.append(u64_to_decimal(song_id).as_str());
    sql.append(", ");
    sql.append(u64_to_decimal(sample.sample_id as u64).as_str());
    sql.append(", ");
    sql.append(quote(sample.text.as_str()).as_str());
    sql.append(", ");
    sql.append(u64_to_decimal(sample.length_bytes).as_str());
    sql.append(", ");
    sql.append(u64_to_decimal(sample.length).as_str());
    sql.append(")");
    sql
}

/// The commands a producer sends for one record.
pub fn track_commands(song_id: u64, track: &TrackInfo) -> (r: Vec<DbCommand>)
    ensures
        r.deep_view() == track_commands_spec(song_id, track@),
{
    let mut commands: Vec<DbCommand> = Vec::new();
    commands.push(DbCommand::Insert(file_insert(song_id, track)));
    let mut i: usize = 0;
    while i < track.samples.len()
        invariant
            i <= track.samples.len(),
            commands.len() == i + 1,
            commands[0]@ == CommandView::Insert(file_insert_sql(song_id, track@)),
            forall|k: int|
                0 <= k < i ==> (#[trigger] commands[k + 1])@ == CommandView::Insert(
                    sample_insert_sql(song_id, track.samples[k]@),
                ),
        decreases track.samples.len() - i,
    {
        commands.push(DbCommand::Insert(sample_insert(song_id, &track.samples[i])));
        i += 1;
    }
    proof {
        let want = track_commands_spec(song_id, track@);
        assert(commands.deep_view().len() == want.len());
        assert forall|k: int| 0 <= k < want.len() implies commands.deep_view()[k] == want[k] by {
            if k > 0 {
                assert(commands[(k - 1) + 1]@ == CommandView::Insert(
                    sample_insert_sql(song_id, track.samples[k - 1]@),
                ));
            }
        }
        assert(commands.deep_view() =~= want);
    }
    commands
}

/// Paths stay apart: two different files below the indexed root have
/// different relative paths.
pub proof fn lemma_relative_paths_distinct(root: Seq<char>, a: Seq<char>, b: Seq<char>)
    requires
        root.is_prefix_of(a),
        root.is_prefix_of(b),
        a != b,
    ensures
        relative_to(a, root) != relative_to(b, root),
{
    if a.skip(root.len() as int) == b.skip(root.len() as int) {
        assert(a =~= root + a.skip(root.len() as int));
        assert(b =~= root + b.skip(root.len() as int));
    }
}

/// A path below the root is the root followed by its relative path.
pub proof fn lemma_relative_path_joins(root: Seq<char>, path: Seq<char>)
    requires
        root.is_prefix_of(path),
    ensures
        root + relative_to(path, root) == path,
{
    assert(path =~= root + path.skip(root.len() as int));
}

/// Every pattern digest but the sentinel is stored as a number of the
/// signed column, and reading that number back gives the digest again.
pub proof fn lemma_column_round_trip(pattern_hash: u64)
    ensures
        i64::MIN <= column_value(pattern_hash) <= i64::MAX,
        pattern_of_column(Some(column_value(pattern_hash) as i64)) == pattern_hash,
        pattern_hash != 0 ==> column_value(pattern_hash) != 0,
        pattern_of_column(None) == 0,
{
}

/// Different pattern digests are written differently, and only the
/// sentinel is written as `NULL`.
pub proof fn lemma_pattern_sql_injective(a: u64, b: u64)
    requires
        pattern_sql(a) == pattern_sql(b),
    ensures
        a == b,
{
    reveal_strlit("NULL");
    let (x, y) = (column_value(a), column_value(b));
    let (mx, my) = (if x >= 0 { x } else { -x }, if y >= 0 { y } else { -y });
    lemma_decimal_shape(mx as nat);
    lemma_decimal_shape(my as nat);
    assert("NULL"@[0] == 'N');
    assert(is_digit(decimal(mx as nat)[0]));
    assert(is_digit(decimal(my as nat)[0]));
    if a == 0 || b == 0 {
        if a != 0 {
            assert(pattern_sql(a)[0] == '-' || is_digit(pattern_sql(a)[0]));
        }
        if b != 0 {
            assert(pattern_sql(b)[0] == '-' || is_digit(pattern_sql(b)[0]));
        }
        assert(a == b);
    } else if x >= 0 && y >= 0 {
        lemma_decimal_injective(x as nat, y as nat);
        assert(a == b);
    } else if x < 0 && y < 0 {
        assert(decimal((-x) as nat) =~= pattern_sql(a).skip(1));
        assert(decimal((-y) as nat) =~= pattern_sql(b).skip(1));
        lemma_decimal_injective((-x) as nat, (-y) as nat);
        assert(a == b);
    } else if x < 0 {
        assert(pattern_sql(a)[0] == '-');
        assert(is_digit(pattern_sql(b)[0]));
    } else {
        assert(pattern_sql(b)[0] == '-');
        assert(is_digit(pattern_sql(a)[0]));
    }
}

} // verus!
