//! Reading values out of the TOML files that describe mission sets.

use vstd::prelude::*;

verus! {

/// The string stored under the top-level key `key` of the TOML document
/// `text`, if `text` parses and the key holds a string.
pub uninterp spec fn toml_string_entry(text: Seq<char>, key: Seq<char>) -> Option<Seq<char>>;

/// `text.parse::<toml::Table>()`, then `Table::get(key)` and
/// `Value::as_str`: the string under a top-level key of a TOML document,
/// `None` when the document does not parse or the key does not hold a
/// string. What is claimed: the result is a function of `text` and `key`
/// alone (`toml_string_entry`). What the TOML grammar accepts is not
/// stated.
#[verifier::external_body]
fn toml_string(text: &str, key: &str) -> (r: Option<String>)
    ensures
        match r {
            Some(s) => toml_string_entry(text@, key@) == Some(s@),
            None => toml_string_entry(text@, key@) is None,
        },
{
    let table: toml::Table = match text.parse() {
        Ok(t) => t,
        Err(_) => return None,
    };
    match table.get(key) {
        Some(v) => match v.as_str() {
            Some(s) => Some(s.to_string()),
            None => None,
        },
        None => None,
    }
}

/// The table under the top-level key `key` of the TOML document `text`,
/// written out again as a TOML document; `None` when `text` does not
/// parse, the key is absent or does not hold a table, or the table cannot
/// be written out.
pub uninterp spec fn toml_table_text_entry(text: Seq<char>, key: Seq<char>) -> Option<Seq<char>>;

/// Under the top-level key `key` of the TOML document `text`: `None` when
/// the document does not parse or the key holds something other than an
/// array; `Some(None)` when the key is absent; otherwise each element of
/// the array, as an integer where it is one.
pub uninterp spec fn toml_int_slots_entry(text: Seq<char>, key: Seq<char>) -> Option<Option<Seq<Option<i64>>>>;

/// As `toml_int_slots_entry`, one level deeper: each element of the array,
/// as its elements (each as an integer where it is one) where it is an
/// array itself.
pub uninterp spec fn toml_int_slot_rows_entry(text: Seq<char>, key: Seq<char>) -> Option<
    Option<Seq<Option<Seq<Option<i64>>>>>,
>;

/// As `toml_int_slots_entry`, for a string: `None` also when the key holds
/// something other than a string.
pub uninterp spec fn toml_opt_string_entry(text: Seq<char>, key: Seq<char>) -> Option<Option<Seq<char>>>;

/// `text.parse::<toml::Table>()`, `Table::get(key)`, `Value::as_table` and
/// `toml::to_string` on the table found. What is claimed: the result is a
/// function of `text` and `key` alone (`toml_table_text_entry`); what the
/// TOML grammar accepts and how a table is written out are not stated.
#[verifier::external_body]
fn toml_table_text(text: &str, key: &Vec<char>) -> (r: Option<String>)
    ensures
        match r {
            None => toml_table_text_entry(text@, key@) is None,
            Some(t) => toml_table_text_entry(text@, key@) == Some(t@),
        },
{
    let key: String = key.iter().collect();
    let doc: toml::Table = text.parse().ok()?;
    toml::to_string(doc.get(&key)?.as_table()?).ok()
}

/// `text.parse::<toml::Table>()`, `Table::get(key)`, `Value::as_array`,
/// and `Value::as_integer` on each element. What is claimed: the result is
/// a function of `text` and `key` alone (`toml_int_slots_entry`); what the
/// TOML grammar accepts is not stated.
#[verifier::external_body]
fn toml_int_slots(text: &str, key: &str) -> (r: Option<Option<Vec<Option<i64>>>>)
    ensures
        match r {
            None => toml_int_slots_entry(text@, key@) is None,
            Some(None) => toml_int_slots_entry(text@, key@) == Some(None::<Seq<Option<i64>>>),
            Some(Some(v)) => toml_int_slots_entry(text@, key@) == Some(Some(v@)),
        },
{
    let doc: toml::Table = text.parse().ok()?;
    match doc.get(key) {
        None => Some(None),
        Some(v) => Some(Some(v.as_array()?.iter().map(toml::Value::as_integer).collect())),
    }
}

/// As `toml_int_slots`, with `Value::as_array` on each element and
/// `Value::as_integer` on each of their elements
/// (`toml_int_slot_rows_entry`).
#[verifier::external_body]
fn toml_int_slot_rows(text: &str, key: &str) -> (r: Option<Option<Vec<Option<Vec<Option<i64>>>>>>)
    ensures
        match r {
            None => toml_int_slot_rows_entry(text@, key@) is None,
            Some(None) => toml_int_slot_rows_entry(text@, key@) == Some(None::<Seq<Option<Seq<Option<i64>>>>>),
            Some(Some(v)) => toml_int_slot_rows_entry(text@, key@) == Some(Some(v.deep_view())),
        },
{
    let doc: toml::Table = text.parse().ok()?;
    match doc.get(key) {
        None => Some(None),
        Some(v) => Some(Some(v.as_array()?.iter().map(|row| {
            row.as_array().map(|xs| xs.iter().map(toml::Value::as_integer).collect())
        }).collect())),
    }
}

/// As `toml_int_slots`, with `Value::as_str` in place of the array
/// (`toml_opt_string_entry`).
#[verifier::external_body]
fn toml_opt_string(text: &str, key: &str) -> (r: Option<Option<String>>)
    ensures
        match r {
            None => toml_opt_string_entry(text@, key@) is None,
            Some(None) => toml_opt_string_entry(text@, key@) == Some(None::<Seq<char>>),
            Some(Some(s)) => toml_opt_string_entry(text@, key@) == Some(Some(s@)),
        },
{
    let doc: toml::Table = text.parse().ok()?;
    match doc.get(key) {
        None => Some(None),
        Some(v) => Some(Some(v.as_str()?.to_string())),
    }
}

/// The pieces of `s` between dots, in order, empty pieces included, as
/// `str::split('.')` gives them: one piece more than `s` has dots.
pub open spec fn split_dots(s: Seq<char>) -> Seq<Seq<char>>
    decreases s.len(),
{
    if s.len() == 0 {
        seq![Seq::<char>::empty()]
    } else {
        let pre = split_dots(s.drop_last());
        if s.last() == '.' {
            pre.push(Seq::<char>::empty())
        } else {
            pre.update(pre.len() - 1, pre.last().push(s.last()))
        }
    }
}

proof fn lemma_split_dots_nonempty(s: Seq<char>)
    ensures
        split_dots(s).len() >= 1,
    decreases s.len(),
{
    if s.len() > 0 {
        lemma_split_dots_nonempty(s.drop_last());
    }
}

/// The pieces `p` put back together with a dot between each two.
pub open spec fn join_dots(p: Seq<Seq<char>>) -> Seq<char>
    decreases p.len(),
{
    if p.len() == 0 {
        Seq::<char>::empty()
    } else if p.len() == 1 {
        p[0]
    } else {
        join_dots(p.drop_last()) + seq!['.'] + p.last()
    }
}

/// A name is split at its dots and nowhere else: no piece holds a dot,
/// joining the pieces with dots gives the name back, and a name without a
/// dot is a single piece, the name itself.
pub proof fn law_split_dots(s: Seq<char>)
    ensures
        split_dots(s).len() >= 1,
        forall|i: int, j: int|
            0 <= i < split_dots(s).len() && 0 <= j < split_dots(s)[i].len() ==> #[trigger] split_dots(s)[i][j]
                != '.',
        join_dots(split_dots(s)) == s,
        !s.contains('.') ==> split_dots(s) == seq![s],
    decreases s.len(),
{
    if s.len() == 0 {
        assert(s =~= Seq::<char>::empty());
        assert(split_dots(s) =~= seq![s]);
    } else {
        let t = s.drop_last();
        let c = s.last();
        law_split_dots(t);
        let pre = split_dots(t);
        if !s.contains('.') {
            assert(!t.contains('.')) by {
                if t.contains('.') {
                    let k = choose|k: int| 0 <= k < t.len() && t[k] == '.';
                    assert(s[k] == '.');
                }
            }
            assert(s[s.len() - 1] == c);
        }
        if c == '.' {
            assert(s.contains('.')) by {
                assert(s[s.len() - 1] == '.');
            }
            let post = pre.push(Seq::<char>::empty());
            assert(post.drop_last() =~= pre);
            assert(join_dots(post) =~= s);
            assert forall|i: int, j: int| 0 <= i < post.len() && 0 <= j < post[i].len() implies #[trigger] post[i][j]
                != '.' by {
                assert(i < pre.len());
                assert(post[i] == pre[i]);
            }
        } else {
            let post = pre.update(pre.len() - 1, pre.last().push(c));
            if pre.len() == 1 {
                assert(join_dots(post) == post[0]);
                assert(pre[0] == join_dots(pre));
                assert(join_dots(post) =~= s);
            } else {
                assert(post.drop_last() =~= pre.drop_last());
                assert(join_dots(post) =~= join_dots(pre).push(c));
                assert(join_dots(post) =~= s);
            }
            assert forall|i: int, j: int| 0 <= i < post.len() && 0 <= j < post[i].len() implies #[trigger] post[i][j]
                != '.' by {
                if i == pre.len() - 1 {
                    if j < pre[i].len() {
                        assert(post[i][j] == pre[i][j]);
                    }
                } else {
                    assert(post[i] == pre[i]);
                }
            }
            if !s.contains('.') {
                assert(pre =~= seq![t]);
                assert(post =~= seq![s]);
            }
        }
    }
}

/// The pieces of `name` between dots.
pub fn split_dots_exec(name: &str) -> (r: Vec<Vec<char>>)
    ensures
        r.deep_view() == split_dots(name@),
        r@.len() >= 1,
        forall|i: int, j: int|
            0 <= i < r@.len() && 0 <= j < r@[i]@.len() ==> #[trigger] r@[i]@[j] != '.',
        join_dots(r.deep_view()) == name@,
        !name@.contains('.') ==> r.deep_view() == seq![name@],
{
    proof {
        law_split_dots(name@);
    }
    broadcast use vstd::string::axiom_spec_iter, vstd::string::next_postcondition;

    let mut done: Vec<Vec<char>> = Vec::new();
    let mut cur: Vec<char> = Vec::new();
    let mut it = name.chars();
    let ghost mut pos: int = 0;
    loop
        invariant
            0 <= pos <= name@.len(),
            vstd::std_specs::iter::IteratorSpec::remaining(&it) == name@.skip(pos),
            done.deep_view().push(cur@) == split_dots(name@.take(pos)),
        ensures
            pos == name@.len(),
            done.deep_view().push(cur@) == split_dots(name@),
        decreases name@.len() - pos,
    {
        let ghost before = it;
        match it.next() {
            None => {
                assert(name@.take(pos) =~= name@) by {
                    assert(name@.skip(pos).len() == 0);
                }
                break;
            },
            Some(c) => {
                proof {
                    assert(c == name@[pos]);
                    assert(name@.take(pos + 1).drop_last() =~= name@.take(pos));
                    lemma_split_dots_nonempty(name@.take(pos));
                }
                if c == '.' {
                    let ghost old_done = done.deep_view();
                    let piece = cur;
                    assert(piece.deep_view() =~= piece@);
                    done.push(piece);
                    cur = Vec::new();
                    proof {
                        assert(done.deep_view() =~= old_done.push(piece@));
                        assert(done.deep_view().push(cur@) =~= split_dots(name@.take(pos + 1)));
                    }
                } else {
                    cur.push(c);
                    proof {
                        assert(done.deep_view().push(cur@) =~= split_dots(name@.take(pos + 1)));
                    }
                }
                proof {
                    assert(vstd::std_specs::iter::IteratorSpec::remaining(&it) =~= name@.skip(pos + 1));
                    pos = pos + 1;
                }
            },
        }
    }
    let ghost old_done = done.deep_view();
    assert(cur.deep_view() =~= cur@);
    done.push(cur);
    proof {
        assert(done.deep_view() =~= old_done.push(cur@));
        assert forall|i: int, j: int| 0 <= i < done@.len() && 0 <= j < done@[i]@.len() implies #[trigger] done@[i]@[j]
            != '.' by {
            assert(done@[i]@ == done.deep_view()[i]);
        }
    }
    done
}

/// The table reached from the document `config` by the keys of `path`,
/// one after the other, each written out as a TOML document.
pub open spec fn path_text(config: Seq<char>, path: Seq<Seq<char>>) -> Option<Seq<char>>
    decreases path.len(),
{
    if path.len() == 0 {
        Some(config)
    } else {
        match path_text(config, path.drop_last()) {
            Some(t) => toml_table_text_entry(t, path.last()),
            None => None,
        }
    }
}

/// A level as its set file describes it, all but the starting velocity:
/// the start position, the stars and targets as (x, y, appearance), the
/// holes as (x, y), and the optional intro text and next level.
pub struct Level {
    pub start_x: i64,
    pub start_y: i64,
    pub stars: Vec<(i64, i64, i64)>,
    pub targets: Vec<(i64, i64, i64)>,
    pub holes: Vec<(i64, i64)>,
    pub intro_text: Option<String>,
    pub next: Option<String>,
}

/// Whether the first `n` elements of `xs` are there and are integers.
pub open spec fn ints_up_to(xs: Seq<Option<i64>>, n: int) -> bool {
    xs.len() >= n && forall|j: int| 0 <= j < n ==> (#[trigger] xs[j]) is Some
}

/// Whether `row` is an array whose first `n` elements are integers.
pub open spec fn row_has(row: Option<Seq<Option<i64>>>, n: int) -> bool {
    row matches Some(xs) && ints_up_to(xs, n)
}

/// Element `j` of an array row, as an integer.
pub open spec fn at(row: Option<Seq<Option<i64>>>, j: int) -> i64 {
    row.unwrap()[j].unwrap()
}

/// Rows whose first three elements are integers, as those three; `None`
/// when a row is not an array or falls short.
pub open spec fn triples(rows: Seq<Option<Seq<Option<i64>>>>) -> Option<Seq<(i64, i64, i64)>> {
    if forall|i: int| 0 <= i < rows.len() ==> row_has(#[trigger] rows[i], 3) {
        Some(rows.map_values(|r: Option<Seq<Option<i64>>>| (at(r, 0), at(r, 1), at(r, 2))))
    } else {
        None
    }
}

/// Rows whose first two elements are integers, as those two; `None` when
/// a row is not an array or falls short.
pub open spec fn pairs(rows: Seq<Option<Seq<Option<i64>>>>) -> Option<Seq<(i64, i64)>> {
    if forall|i: int| 0 <= i < rows.len() ==> row_has(#[trigger] rows[i], 2) {
        Some(rows.map_values(|r: Option<Seq<Option<i64>>>| (at(r, 0), at(r, 1))))
    } else {
        None
    }
}

/// A list that may be absent (then empty), or present and well formed.
pub open spec fn optional_list<A>(
    e: Option<Option<Seq<Option<Seq<Option<i64>>>>>>,
    conv: spec_fn(Seq<Option<Seq<Option<i64>>>>) -> Option<Seq<A>>,
) -> Option<Seq<A>> {
    match e {
        None => None,
        Some(None) => Some(Seq::empty()),
        Some(Some(rows)) => conv(rows),
    }
}

/// The characters of an optional string.
pub open spec fn string_view(o: Option<String>) -> Option<Seq<char>> {
    match o {
        Some(s) => Some(s@),
        None => None,
    }
}

/// Whether `l` is the level in the table `level` (a TOML document);
/// `None` when the start position is missing or does not begin with two
/// integers, or an entry has the wrong shape.
pub open spec fn level_table_matches(level: Seq<char>, l: Option<Level>) -> bool {
    let start = toml_int_slots_entry(level, "start_pos"@);
    let stars = optional_list(toml_int_slot_rows_entry(level, "stars"@), |r| triples(r));
    let targets = optional_list(toml_int_slot_rows_entry(level, "targets"@), |r| triples(r));
    let holes = optional_list(toml_int_slot_rows_entry(level, "holes"@), |r| pairs(r));
    let intro = toml_opt_string_entry(level, "intro_text"@);
    let next = toml_opt_string_entry(level, "next"@);
    let well_formed = start matches Some(Some(s)) && ints_up_to(s, 2) && stars is Some && targets is Some
        && holes is Some && intro is Some && next is Some;
    match l {
        None => !well_formed,
        Some(lv) => {
            &&& well_formed
            &&& lv.start_x == start.unwrap().unwrap()[0].unwrap()
            &&& lv.start_y == start.unwrap().unwrap()[1].unwrap()
            &&& lv.stars@ == stars.unwrap()
            &&& lv.targets@ == targets.unwrap()
            &&& lv.holes@ == holes.unwrap()
            &&& string_view(lv.intro_text) == intro.unwrap()
            &&& string_view(lv.next) == next.unwrap()
        },
    }
}

/// The first `n` elements of `row`, when it is an array and they are
/// integers.
fn row_prefix(row: &Option<Vec<Option<i64>>>, n: usize) -> (r: Option<Vec<i64>>)
    ensures
        match r {
            Some(v) => row_has(row.deep_view(), n as int) && v@.len() == n && forall|j: int|
                0 <= j < n ==> #[trigger] v@[j] == at(row.deep_view(), j),
            None => !row_has(row.deep_view(), n as int),
        },
{
    let xs = match row {
        Some(xs) => xs,
        None => return None,
    };
    assert(row.deep_view() == Some(xs@));
    if xs.len() < n {
        return None;
    }
    let mut out: Vec<i64> = Vec::new();
    let mut j: usize = 0;
    while j < n
        invariant
            j <= n <= xs@.len(),
            row.deep_view() == Some(xs@),
            out@.len() == j,
            forall|m: int| 0 <= m < j ==> (#[trigger] xs@[m]) is Some && out@[m] == xs@[m].unwrap(),
        decreases n - j,
    {
        match xs[j] {
            Some(x) => out.push(x),
            None => return None,
        }
        j = j + 1;
    }
    Some(out)
}

fn rows_to_triples(rows: Vec<Option<Vec<Option<i64>>>>) -> (r: Option<Vec<(i64, i64, i64)>>)
    ensures
        match r {
            Some(v) => triples(rows.deep_view()) == Some(v@),
            None => triples(rows.deep_view()) is None,
        },
{
    let mut out: Vec<(i64, i64, i64)> = Vec::new();
    let mut i: usize = 0;
    while i < rows.len()
        invariant
            i <= rows@.len(),
            out@.len() == i,
            forall|j: int| 0 <= j < i ==> row_has(#[trigger] rows.deep_view()[j], 3),
            forall|j: int|
                0 <= j < i ==> #[trigger] out@[j] == (
                    at(rows.deep_view()[j], 0),
                    at(rows.deep_view()[j], 1),
                    at(rows.deep_view()[j], 2),
                ),
        decreases rows@.len() - i,
    {
        assert(rows@[i as int].deep_view() == rows.deep_view()[i as int]);
        let p = match row_prefix(&rows[i], 3) {
            Some(p) => p,
            None => return None,
        };
        out.push((p[0], p[1], p[2]));
        i = i + 1;
    }
    assert(out@ =~= rows.deep_view().map_values(
        |r: Option<Seq<Option<i64>>>| (at(r, 0), at(r, 1), at(r, 2)),
    ));
    Some(out)
}

fn rows_to_pairs(rows: Vec<Option<Vec<Option<i64>>>>) -> (r: Option<Vec<(i64, i64)>>)
    ensures
        match r {
            Some(v) => pairs(rows.deep_view()) == Some(v@),
            None => pairs(rows.deep_view()) is None,
        },
{
    let mut out: Vec<(i64, i64)> = Vec::new();
    let mut i: usize = 0;
    while i < rows.len()
        invariant
            i <= rows@.len(),
            out@.len() == i,
            forall|j: int| 0 <= j < i ==> row_has(#[trigger] rows.deep_view()[j], 2),
            forall|j: int|
                0 <= j < i ==> #[trigger] out@[j] == (at(rows.deep_view()[j], 0), at(rows.deep_view()[j], 1)),
        decreases rows@.len() - i,
    {
        assert(rows@[i as int].deep_view() == rows.deep_view()[i as int]);
        let p = match row_prefix(&rows[i], 2) {
            Some(p) => p,
            None => return None,
        };
        out.push((p[0], p[1]));
        i = i + 1;
    }
    assert(out@ =~= rows.deep_view().map_values(|r: Option<Seq<Option<i64>>>| (at(r, 0), at(r, 1))));
    Some(out)
}

/// Whether `l` is the level `name` of the set file `config`: the level's
/// table is found by the dot-separated keys of `name`, one table inside
/// the next; `None` when there is no such table or it is not a level.
pub open spec fn level_matches(config: Seq<char>, name: Seq<char>, l: Option<Level>) -> bool {
    match path_text(config, split_dots(name)) {
        None => l is None,
        Some(level) => level_table_matches(level, l),
    }
}

/// What a loaded level holds, entry by entry, read straight off the
/// level's table `doc` (found by the dotted name): the start position is
/// the first two integers of `start_pos`; the stars and targets have one
/// triple per row of their arrays, in order, made of the row's first three
/// integers; the holes one pair per row, its first two integers; a list
/// that is absent is empty; the intro text and next level are the strings
/// stored, or nothing when absent.
pub proof fn law_level_entries(config: Seq<char>, name: Seq<char>, lv: Level)
    requires
        level_matches(config, name, Some(lv)),
    ensures
        path_text(config, split_dots(name)) is Some,
        ({
            let doc = path_text(config, split_dots(name)).unwrap();
            let start = toml_int_slots_entry(doc, "start_pos"@);
            &&& start is Some && start.unwrap() is Some
            &&& start.unwrap().unwrap().len() >= 2
            &&& start.unwrap().unwrap()[0] == Some(lv.start_x)
            &&& start.unwrap().unwrap()[1] == Some(lv.start_y)
        }),
        ({
            let e = toml_int_slot_rows_entry(path_text(config, split_dots(name)).unwrap(), "stars"@);
            &&& e is Some
            &&& e.unwrap() is None ==> lv.stars@.len() == 0
            &&& e.unwrap() is Some ==> {
                let rows = e.unwrap().unwrap();
                &&& lv.stars@.len() == rows.len()
                &&& forall|i: int|
                    0 <= i < rows.len() ==> rows[i] is Some && rows[i].unwrap().len() >= 3 && rows[i].unwrap()[0]
                        == Some((#[trigger] lv.stars@[i]).0) && rows[i].unwrap()[1] == Some(lv.stars@[i].1)
                        && rows[i].unwrap()[2] == Some(lv.stars@[i].2)
            }
        }),
        ({
            let e = toml_int_slot_rows_entry(path_text(config, split_dots(name)).unwrap(), "targets"@);
            &&& e is Some
            &&& e.unwrap() is None ==> lv.targets@.len() == 0
            &&& e.unwrap() is Some ==> {
                let rows = e.unwrap().unwrap();
                &&& lv.targets@.len() == rows.len()
                &&& forall|i: int|
                    0 <= i < rows.len() ==> rows[i] is Some && rows[i].unwrap().len() >= 3 && rows[i].unwrap()[0]
                        == Some((#[trigger] lv.targets@[i]).0) && rows[i].unwrap()[1] == Some(lv.targets@[i].1)
                        && rows[i].unwrap()[2] == Some(lv.targets@[i].2)
            }
        }),
        ({
            let e = toml_int_slot_rows_entry(path_text(config, split_dots(name)).unwrap(), "holes"@);
            &&& e is Some
            &&& e.unwrap() is None ==> lv.holes@.len() == 0
            &&& e.unwrap() is Some ==> {
                let rows = e.unwrap().unwrap();
                &&& lv.holes@.len() == rows.len()
                &&& forall|i: int|
                    0 <= i < rows.len() ==> rows[i] is Some && rows[i].unwrap().len() >= 2 && rows[i].unwrap()[0]
                        == Some((#[trigger] lv.holes@[i]).0) && rows[i].unwrap()[1] == Some(lv.holes@[i].1)
            }
        }),
        toml_opt_string_entry(path_text(config, split_dots(name)).unwrap(), "intro_text"@) == Some(
            string_view(lv.intro_text),
        ),
        toml_opt_string_entry(path_text(config, split_dots(name)).unwrap(), "next"@) == Some(
            string_view(lv.next),
        ),
{
    let doc = path_text(config, split_dots(name)).unwrap();
    if let Some(Some(rows)) = toml_int_slot_rows_entry(doc, "stars"@) {
        lemma_triples_read(rows, lv.stars@);
    }
    if let Some(Some(rows)) = toml_int_slot_rows_entry(doc, "targets"@) {
        lemma_triples_read(rows, lv.targets@);
    }
    if let Some(Some(rows)) = toml_int_slot_rows_entry(doc, "holes"@) {
        lemma_pairs_read(rows, lv.holes@);
    }
}

proof fn lemma_triples_read(rows: Seq<Option<Seq<Option<i64>>>>, out: Seq<(i64, i64, i64)>)
    requires
        triples(rows) == Some(out),
    ensures
        out.len() == rows.len(),
        forall|i: int|
            0 <= i < rows.len() ==> rows[i] is Some && rows[i].unwrap().len() >= 3 && rows[i].unwrap()[0] == Some(
                (#[trigger] out[i]).0,
            ) && rows[i].unwrap()[1] == Some(out[i].1) && rows[i].unwrap()[2] == Some(out[i].2),
{
    assert forall|i: int| 0 <= i < rows.len() implies rows[i] is Some && rows[i].unwrap().len() >= 3
        && rows[i].unwrap()[0] == Some((#[trigger] out[i]).0) && rows[i].unwrap()[1] == Some(out[i].1)
        && rows[i].unwrap()[2] == Some(out[i].2) by {
        assert(row_has(rows[i], 3));
        assert(ints_up_to(rows[i].unwrap(), 3));
        assert(rows[i].unwrap()[0] is Some && rows[i].unwrap()[1] is Some && rows[i].unwrap()[2] is Some);
    }
}

proof fn lemma_pairs_read(rows: Seq<Option<Seq<Option<i64>>>>, out: Seq<(i64, i64)>)
    requires
        pairs(rows) == Some(out),
    ensures
        out.len() == rows.len(),
        forall|i: int|
            0 <= i < rows.len() ==> rows[i] is Some && rows[i].unwrap().len() >= 2 && rows[i].unwrap()[0] == Some(
                (#[trigger] out[i]).0,
            ) && rows[i].unwrap()[1] == Some(out[i].1),
{
    assert forall|i: int| 0 <= i < rows.len() implies rows[i] is Some && rows[i].unwrap().len() >= 2
        && rows[i].unwrap()[0] == Some((#[trigger] out[i]).0) && rows[i].unwrap()[1] == Some(out[i].1) by {
        assert(row_has(rows[i], 2));
        assert(ints_up_to(rows[i].unwrap(), 2));
        assert(rows[i].unwrap()[0] is Some && rows[i].unwrap()[1] is Some);
    }
}

/// The level `name` of a mission set, from the text of the set file. The
/// dots in `name` separate the keys of tables nested one inside another.
pub fn level_from_config(config: &str, name: &str) -> (r: Option<Level>)
    ensures
        level_matches(config@, name@, r),
{
    let path = split_dots_exec(name);
    let mut level: String = config.to_owned();
    let mut i: usize = 0;
    while i < path.len()
        invariant
            i <= path@.len(),
            path.deep_view() == split_dots(name@),
            path_text(config@, path.deep_view().take(i as int)) == Some(level@),
        decreases path@.len() - i,
    {
        proof {
            assert(path.deep_view().take(i + 1).drop_last() =~= path.deep_view().take(i as int));
            assert(path@[i as int]@ == path.deep_view()[i as int]);
        }
        level = match toml_table_text(level.as_str(), &path[i]) {
            Some(t) => t,
            None => {
                proof {
                    lemma_path_text_none(config@, path.deep_view(), i + 1);
                }
                return None;
            },
        };
        i = i + 1;
    }
    proof {
        assert(path.deep_view().take(path@.len() as int) =~= path.deep_view());
    }
    level_from_table(level.as_str())
}

/// Once the walk down a path fails, it fails for every longer prefix.
proof fn lemma_path_text_none(config: Seq<char>, path: Seq<Seq<char>>, n: int)
    requires
        0 <= n <= path.len(),
        path_text(config, path.take(n)) is None,
    ensures
        path_text(config, path) is None,
    decreases path.len() - n,
{
    if n < path.len() {
        assert(path.take(n + 1).drop_last() =~= path.take(n));
        lemma_path_text_none(config, path, n + 1);
    } else {
        assert(path.take(n) =~= path);
    }
}

/// The level in the table `level`, given as a TOML document.
pub fn level_from_table(level: &str) -> (r: Option<Level>)
    ensures
        level_table_matches(level@, r),
{
    let start = match toml_int_slots(level, "start_pos") {
        Some(Some(s)) => s,
        _ => return None,
    };
    if start.len() < 2 {
        return None;
    }
    let (start_x, start_y) = match (start[0], start[1]) {
        (Some(x), Some(y)) => (x, y),
        _ => return None,
    };
    assert(ints_up_to(start@, 2));
    let stars = match toml_int_slot_rows(level, "stars") {
        None => return None,
        Some(None) => Some(Vec::new()),
        Some(Some(rows)) => rows_to_triples(rows),
    };
    let stars = match stars {
        Some(v) => v,
        None => return None,
    };
    let targets = match toml_int_slot_rows(level, "targets") {
        None => return None,
        Some(None) => Some(Vec::new()),
        Some(Some(rows)) => rows_to_triples(rows),
    };
    let targets = match targets {
        Some(v) => v,
        None => return None,
    };
    let holes = match toml_int_slot_rows(level, "holes") {
        None => return None,
        Some(None) => Some(Vec::new()),
        Some(Some(rows)) => rows_to_pairs(rows),
    };
    let holes = match holes {
        Some(v) => v,
        None => return None,
    };
    let intro_text = match toml_opt_string(level, "intro_text") {
        None => return None,
        Some(t) => t,
    };
    let next = match toml_opt_string(level, "next") {
        None => return None,
        Some(t) => t,
    };
    Some(Level { start_x, start_y, stars, targets, holes, intro_text, next })
}

/// The display name of a mission set, from the text of its file.
pub fn get_set_name(config: &str) -> (name: Option<String>)
    ensures
        match name {
            Some(s) => toml_string_entry(config@, "name"@) == Some(s@),
            None => toml_string_entry(config@, "name"@) is None,
        },
{
    toml_string(config, "name")
}

/// The name of the file that keeps a mission set's high score, from the
/// text of the set's file.
pub fn get_score_file(config: &str) -> (file: Option<String>)
    ensures
        match file {
            Some(s) => toml_string_entry(config@, "score_file"@) == Some(s@),
            None => toml_string_entry(config@, "score_file"@) is None,
        },
{
    toml_string(config, "score_file")
}

} // verus!
