//! A file-change watcher's verified core: reading and editing MySQL option
//! files, the records logged for file-system events, the rules of the HTTP
//! payload intake and of the backup tool, and a line search over text.
pub mod borg;
pub mod common_message;
pub mod common_util;
pub mod db;
pub mod models;
pub mod mysql;
pub mod payload;
pub mod text;

use vstd::prelude::*;

verus! {

/// The command line of the search: the text to look for and the file to
/// search.
pub struct Config {
    query: String,
    filename: String,
}

impl View for Config {
    type V = (Seq<char>, Seq<char>);

    closed spec fn view(&self) -> (Seq<char>, Seq<char>) {
        (self.query@, self.filename@)
    }
}

impl Config {
    /// Takes the query and the file name from the second and third
    /// command-line arguments; fails with "not enough arguments" when there
    /// are fewer than three.
    pub fn new(args: &[String]) -> (r: Result<Config, &'static str>)
        ensures
            args@.len() < 3 ==> (r matches Err(e) && e@ == "not enough arguments"@),
            args@.len() >= 3 ==> (r matches Ok(c) && c@ == (args@[1]@, args@[2]@)),
    {
        if args.len() < 3 {
            return Err("not enough arguments");
        }
        let query = args[1].clone();
        let filename = args[2].clone();
        Ok(Config { query, filename })
    }

    /// The text searched for.
    pub fn query(&self) -> (r: &String)
        ensures
            r@ == self@.0,
    {
        &self.query
    }

    /// The file searched.
    pub fn filename(&self) -> (r: &String)
        ensures
            r@ == self@.1,
    {
        &self.filename
    }
}

/// Takes the query and the file name from the second and third arguments,
/// of which there must be at least three.
pub fn parse_config(args: &[String]) -> (r: Config)
    requires
        args@.len() >= 3,
    ensures
        r@ == (args@[1]@, args@[2]@),
{
    let query = args[1].clone();
    let filename = args[2].clone();
    Config { query, filename }
}

/// A line without the carriage return that ends it, if any.
pub open spec fn strip_cr(p: Seq<char>) -> Seq<char> {
    if p.len() > 0 && p.last() == '\r' {
        p.drop_last()
    } else {
        p
    }
}

/// The lines of a text as `str::lines` yields them: split at each `\n`,
/// a `\r` just before the `\n` dropped, and no empty line after a final `\n`.
pub open spec fn lines_of(s: Seq<char>) -> Seq<Seq<char>>
    decreases s.len(),
{
    if s.len() == 0 {
        seq![]
    } else {
        let k = text::find(s, '\n');
        if 0 <= k < s.len() {
            seq![strip_cr(s.subrange(0, k))] + lines_of(s.subrange(k + 1, s.len() as int))
        } else {
            seq![s]
        }
    }
}

/// The lines that contain `query`, in order.
pub open spec fn matching_lines(query: Seq<char>, ls: Seq<Seq<char>>) -> Seq<Seq<char>>
    decreases ls.len(),
{
    if ls.len() == 0 {
        seq![]
    } else if text::contains_seq(ls[0], query) {
        seq![ls[0]] + matching_lines(query, ls.drop_first())
    } else {
        matching_lines(query, ls.drop_first())
    }
}

/// The lines that `search` keeps are exactly the lines in which `query`
/// occurs at some position (`str::contains`), in the order of the text.
pub proof fn lemma_matching_lines_filter(query: Seq<char>, ls: Seq<Seq<char>>)
    ensures
        matching_lines(query, ls) == ls.filter(
            |l: Seq<char>|
                exists|i: int|
                    0 <= i && i + query.len() <= l.len() && #[trigger] l.subrange(
                        i,
                        i + query.len(),
                    ) == query,
        ),
    decreases ls.len(),
{
    let pred = |l: Seq<char>|
        exists|i: int|
            0 <= i && i + query.len() <= l.len() && #[trigger] l.subrange(i, i + query.len())
                == query;
    if ls.len() == 0 {
        reveal(Seq::filter);
    } else {
        let head = seq![ls[0]];
        let tail = ls.drop_first();
        lemma_matching_lines_filter(query, tail);
        assert(ls =~= head + tail);
        Seq::filter_distributes_over_add(head, tail, pred);
        reveal_with_fuel(Seq::filter, 2);
        assert(head.drop_last() =~= Seq::<Seq<char>>::empty());
        let l = ls[0];
        if text::contains_seq(l, query) {
            let i = choose|i: int| text::occurs_at(l, query, i);
            assert(l.subrange(i, i + query.len()) == query);
        }
        if pred(l) {
            let i = choose|i: int|
                0 <= i && i + query.len() <= l.len() && #[trigger] l.subrange(i, i + query.len())
                    == query;
            assert(text::occurs_at(l, query, i));
        }
        assert(text::contains_seq(l, query) == pred(l));
        if pred(ls[0]) {
            assert(head.filter(pred) =~= head);
        } else {
            assert(head.filter(pred) =~= Seq::<Seq<char>>::empty());
        }
    }
}

/// The views of a sequence of string slices.
pub open spec fn str_views(v: Seq<&str>) -> Seq<Seq<char>> {
    v.map_values(|l: &str| l@)
}

/// The lines of `contents` that contain `query`, in order.
pub fn search<'a>(query: &str, contents: &'a str) -> (r: Vec<&'a str>)
    ensures
        str_views(r@) == matching_lines(query@, lines_of(contents@)),
{
    let n = contents.unicode_len();
    let ghost s = contents@;
    let mut results: Vec<&'a str> = Vec::new();
    let mut pos: usize = 0;
    assert(s.subrange(0, n as int) =~= s);
    while pos < n
        invariant
            n == s.len(),
            s == contents@,
            pos <= n,
            str_views(results@) + matching_lines(query@, lines_of(s.subrange(pos as int, n as int)))
                =~= matching_lines(query@, lines_of(s)),
        decreases n - pos,
    {
        let ghost sub = s.subrange(pos as int, n as int);
        let k = text::find_char_from(contents, '\n', pos);
        proof {
            text::lemma_find_shift(s, '\n', pos as int);
            text::lemma_find_from(s, '\n', pos as int);
            text::lemma_find_from(sub, '\n', 0);
        }
        let mut end = k;
        if k < n && k > pos && contents.get_char(k - 1) == '\r' {
            end = k - 1;
        }
        let line = contents.substring_char(pos, end);
        proof {
            let kk = k - pos;
            if k < n {
                assert(sub.subrange(0, kk) =~= s.subrange(pos as int, k as int));
                assert(sub.subrange(kk + 1, sub.len() as int) =~= s.subrange(k + 1, n as int));
                assert(line@ =~= strip_cr(sub.subrange(0, kk)));
            } else {
                assert(line@ =~= sub);
            }
            assert(lines_of(sub)[0] == line@);
            assert(lines_of(sub).drop_first() =~= if k < n {
                lines_of(s.subrange(k + 1, n as int))
            } else {
                seq![]
            });
        }
        let ghost old_results = results@;
        if text::contains_str(line, query) {
            results.push(line);
            assert(str_views(results@) =~= str_views(old_results).push(line@));
        }
        if k < n {
            pos = k + 1;
        } else {
            pos = n;
            assert(s.subrange(n as int, n as int) =~= Seq::<char>::empty());
        }
    }
    assert(s.subrange(n as int, n as int) =~= Seq::<char>::empty());
    results
}

} // verus!
