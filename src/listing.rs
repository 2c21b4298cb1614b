//! Reading the catalog's text formats: the index that names each channel's
//! listing script, and the lines of such a script, one file per line.
use vstd::prelude::*;
use crate::catalog::DownloadableFile;
use crate::text::{chars_of, word_spans, words};

verus! {

/// The pieces of `s` between occurrences of `sep` (what `str::split` yields).
pub open spec fn split_on(s: Seq<char>, sep: char) -> Seq<Seq<char>>
    decreases s.len(),
{
    if s.len() == 0 {
        seq![seq![]]
    } else {
        let r = split_on(s.drop_last(), sep);
        if s.last() == sep {
            r.push(seq![])
        } else {
            r.update(r.len() - 1, r.last().push(s.last()))
        }
    }
}

proof fn lemma_split_nonempty(s: Seq<char>, sep: char)
    ensures
        split_on(s, sep).len() >= 1,
    decreases s.len(),
{
    if s.len() > 0 {
        lemma_split_nonempty(s.drop_last(), sep);
    }
}

/// Spans of the pieces of `s[from..to]` between occurrences of `sep`.
pub fn split_spans(s: &Vec<char>, from: usize, to: usize, sep: char) -> (spans: Vec<(usize, usize)>)
    requires
        from <= to <= s@.len(),
    ensures
        spans@.len() == split_on(s@.subrange(from as int, to as int), sep).len(),
        forall|k: int|
            0 <= k < spans@.len() ==> {
                &&& from <= (#[trigger] spans@[k]).0 <= spans@[k].1 <= to
                &&& s@.subrange(spans@[k].0 as int, spans@[k].1 as int) == split_on(
                    s@.subrange(from as int, to as int),
                    sep,
                )[k]
            },
{
    let mut spans: Vec<(usize, usize)> = Vec::new();
    spans.push((from, from));
    let mut i = from;
    proof {
        assert(s@.subrange(from as int, from as int) =~= Seq::<char>::empty());
        assert(s@.subrange(from as int, from as int) =~= seq![]);
    }
    while i < to
        invariant
            from <= i <= to <= s@.len(),
            spans@.len() >= 1,
            spans@.len() == split_on(s@.subrange(from as int, i as int), sep).len(),
            spans@[spans@.len() - 1].1 == i,
            forall|k: int|
                0 <= k < spans@.len() ==> {
                    &&& from <= (#[trigger] spans@[k]).0 <= spans@[k].1 <= i
                    &&& s@.subrange(spans@[k].0 as int, spans@[k].1 as int) == split_on(
                        s@.subrange(from as int, i as int),
                        sep,
                    )[k]
                },
        decreases to - i,
    {
        let ghost prev = spans@;
        let ghost cur = s@.subrange(from as int, i + 1);
        let ghost r = split_on(s@.subrange(from as int, i as int), sep);
        assert(cur.drop_last() =~= s@.subrange(from as int, i as int));
        assert(cur.last() == s@[i as int]);
        let last = spans.len() - 1;
        if s[i] == sep {
            spans.push((i + 1, i + 1));
            assert(split_on(cur, sep) == r.push(seq![]));
            assert forall|k: int| 0 <= k < spans@.len() implies {
                &&& from <= (#[trigger] spans@[k]).0 <= spans@[k].1 <= i + 1
                &&& s@.subrange(spans@[k].0 as int, spans@[k].1 as int) == split_on(cur, sep)[k]
            } by {
                if k < prev.len() {
                    assert(spans@[k] == prev[k]);
                } else {
                    assert(s@.subrange(i + 1, i + 1) =~= seq![]);
                }
            }
        } else {
            let (a, _) = spans[last];
            spans.set(last, (a, i + 1));
            assert(split_on(cur, sep) == r.update(r.len() - 1, r.last().push(s@[i as int])));
            assert forall|k: int| 0 <= k < spans@.len() implies {
                &&& from <= (#[trigger] spans@[k]).0 <= spans@[k].1 <= i + 1
                &&& s@.subrange(spans@[k].0 as int, spans@[k].1 as int) == split_on(cur, sep)[k]
            } by {
                if k < last {
                    assert(spans@[k] == prev[k]);
                } else {
                    assert(prev[k].0 == a);
                    assert(s@.subrange(a as int, i + 1) =~= s@.subrange(a as int, i as int).push(
                        s@[i as int],
                    ));
                }
            }
        }
        i = i + 1;
    }
    spans
}

/// A line of the index: a channel, the address of its listing script, and
/// the network it is on.
pub struct DatabaseContent {
    pub channel_name: String,
    pub script_url: String,
    pub network: String,
}

pub open spec fn content_view(c: DatabaseContent) -> (Seq<char>, Seq<char>, Seq<char>) {
    (c.channel_name@, c.script_url@, c.network@)
}

/// The lines of `s` (what `str::lines` yields): pieces between `\n`, a
/// `\r` before a `\n` dropped, and no empty piece after a final `\n`.
pub open spec fn lines_of(s: Seq<char>) -> Seq<Seq<char>> {
    let p = split_on(s, '\n');
    let n = if p.last().len() == 0 {
        p.len() - 1
    } else {
        p.len() as int
    };
    Seq::new(
        n as nat,
        |k: int|
            if k < p.len() - 1 && p[k].len() > 0 && p[k].last() == '\r' {
                p[k].drop_last()
            } else {
                p[k]
            },
    )
}

pub open spec fn starts_with(s: Seq<char>, p: Seq<char>) -> bool {
    s.len() >= p.len() && s.subrange(0, p.len() as int) == p
}

/// How one index line changes the state (entries so far, current network):
/// `0=...*<network>...` sets the network; another line that is not empty
/// and does not start with `[`, of the form `<key>=<channel>*<script>...`,
/// adds an entry.
pub open spec fn index_step(
    state: (Seq<(Seq<char>, Seq<char>, Seq<char>)>, Seq<char>),
    line: Seq<char>,
) -> (Seq<(Seq<char>, Seq<char>, Seq<char>)>, Seq<char>) {
    if starts_with(line, seq!['0', '=']) {
        let parts = split_on(line, '*');
        if parts.len() > 1 {
            (state.0, parts[1])
        } else {
            state
        }
    } else if line.len() > 0 && line[0] != '[' {
        let halves = split_on(line, '=');
        if halves.len() > 1 {
            let parts = split_on(halves[1], '*');
            if parts.len() >= 2 {
                (state.0.push((parts[0], parts[1], state.1)), state.1)
            } else {
                state
            }
        } else {
            state
        }
    } else {
        state
    }
}

/// The state after the first `n` lines.
pub open spec fn index_scan(ls: Seq<Seq<char>>, n: int) -> (
    Seq<(Seq<char>, Seq<char>, Seq<char>)>,
    Seq<char>,
)
    decreases n,
{
    if n <= 0 {
        (seq![], seq![])
    } else {
        index_step(index_scan(ls, n - 1), ls[n - 1])
    }
}

/// The entries that an index lists, in order, each with the network that the
/// last `0=` line before it named (empty before any).
pub open spec fn index_entries(s: Seq<char>) -> Seq<(Seq<char>, Seq<char>, Seq<char>)> {
    index_scan(lines_of(s), lines_of(s).len() as int).0
}

fn string_of(text: &str, chars: &Vec<char>, from: usize, to: usize) -> (r: String)
    requires
        chars@ == text@,
        from <= to <= chars@.len(),
    ensures
        r@ == chars@.subrange(from as int, to as int),
{
    String::from_str(text.substring_char(from, to))
}

/// Reads the index text into its entries.
pub fn extract_database_info(database_content: &str) -> (r: Vec<DatabaseContent>)
    ensures
        r@.len() == index_entries(database_content@).len(),
        forall|k: int|
            0 <= k < r@.len() ==> content_view(#[trigger] r@[k]) == index_entries(
                database_content@,
            )[k],
{
    let chars = chars_of(database_content);
    let pieces = split_spans(&chars, 0, chars.len(), '\n');
    let ghost s = database_content@;
    let ghost p = split_on(s, '\n');
    let ghost ls = lines_of(s);
    proof {
        assert(chars@.subrange(0, chars@.len() as int) =~= s);
        lemma_split_nonempty(s, '\n');
    }
    let np = pieces.len();
    let n = if pieces[np - 1].0 == pieces[np - 1].1 {
        np - 1
    } else {
        np
    };
    assert(n == ls.len());
    let mut out: Vec<DatabaseContent> = Vec::new();
    let mut network = String::new();
    let mut k: usize = 0;
    while k < n
        invariant
            chars@ == s,
            s == database_content@,
            ls == lines_of(s),
            p == split_on(s, '\n'),
            pieces@.len() == p.len(),
            np == pieces@.len(),
            n == ls.len(),
            n <= np,
            k <= n,
            forall|j: int|
                0 <= j < pieces@.len() ==> {
                    &&& 0 <= (#[trigger] pieces@[j]).0 <= pieces@[j].1 <= s.len()
                    &&& s.subrange(pieces@[j].0 as int, pieces@[j].1 as int) == p[j]
                },
            out@.len() == index_scan(ls, k as int).0.len(),
            forall|j: int|
                0 <= j < out@.len() ==> content_view(#[trigger] out@[j]) == index_scan(
                    ls,
                    k as int,
                ).0[j],
            network@ == index_scan(ls, k as int).1,
        decreases n - k,
    {
        let (a, b0) = pieces[k];
        assert(pieces@[k as int].0 <= pieces@[k as int].1);
        let b = if k + 1 < np && b0 > a && chars[b0 - 1] == '\r' {
            b0 - 1
        } else {
            b0
        };
        proof {
            let pk = p[k as int];
            assert(pk == s.subrange(a as int, b0 as int));
            if b < b0 {
                assert(pk.drop_last() =~= s.subrange(a as int, b as int));
            }
            assert(ls[k as int] == s.subrange(a as int, b as int));
        }
        let ghost line = s.subrange(a as int, b as int);
        let ghost before = index_scan(ls, k as int);
        assert(index_scan(ls, k + 1) == index_step(before, line));
        let ghost prev = out@;
        if b - a >= 2 && chars[a] == '0' && chars[a + 1] == '=' {
            assert(starts_with(line, seq!['0', '='])) by {
                assert(line.subrange(0, 2) =~= seq!['0', '=']);
            }
            let parts = split_spans(&chars, a, b, '*');
            if parts.len() > 1 {
                let (c, d) = parts[1];
                assert(parts@[1].0 <= parts@[1].1);
                network = string_of(database_content, &chars, c, d);
            }
        } else {
            assert(!starts_with(line, seq!['0', '='])) by {
                if line.len() >= 2 {
                    assert(line.subrange(0, 2)[0] == line[0]);
                    assert(line.subrange(0, 2)[1] == line[1]);
                }
            }
            if b > a && chars[a] != '[' {
                let halves = split_spans(&chars, a, b, '=');
                if halves.len() > 1 {
                    let (c, d) = halves[1];
                    assert(halves@[1].0 <= halves@[1].1);
                    let ghost half = s.subrange(c as int, d as int);
                    let parts = split_spans(&chars, c, d, '*');
                    assert(chars@.subrange(c as int, d as int) == half);
                    if parts.len() >= 2 {
                        let (e, f) = parts[0];
                        let (g, h) = parts[1];
                        assert(parts@[0].0 <= parts@[0].1);
                        assert(parts@[1].0 <= parts@[1].1);
                        let entry = DatabaseContent {
                            channel_name: string_of(database_content, &chars, e, f),
                            script_url: string_of(database_content, &chars, g, h),
                            network: network.clone(),
                        };
                        out.push(entry);
                        assert forall|j: int| 0 <= j < out@.len() implies content_view(
                            #[trigger] out@[j],
                        ) == index_scan(ls, k + 1).0[j] by {
                            if j < prev.len() {
                                assert(out@[j] == prev[j]);
                            }
                        }
                    }
                }
            }
        }
        k = k + 1;
    }
    out
}

/// Number of words a script line needs to describe a file.
pub const COLUMNS_PER_FILE: usize = 4;

/// The words of a script line.
pub fn adapt_script_line(line: &str) -> (r: Vec<String>)
    ensures
        r@.len() == words(line@).len(),
        forall|k: int| 0 <= k < r@.len() ==> (#[trigger] r@[k])@ == words(line@)[k],
{
    let chars = chars_of(line);
    let spans = word_spans(&chars);
    let mut r: Vec<String> = Vec::new();
    let mut k: usize = 0;
    while k < spans.len()
        invariant
            chars@ == line@,
            spans@.len() == words(line@).len(),
            forall|j: int|
                0 <= j < spans@.len() ==> {
                    &&& (#[trigger] spans@[j]).0 <= spans@[j].1 <= chars@.len()
                    &&& chars@.subrange(spans@[j].0 as int, spans@[j].1 as int) == words(
                        line@,
                    )[j]
                },
            k <= spans@.len(),
            r@.len() == k,
            forall|j: int| 0 <= j < k ==> (#[trigger] r@[j])@ == words(line@)[j],
        decreases spans@.len() - k,
    {
        let (a, b) = spans[k];
        assert(spans@[k as int].0 <= spans@[k as int].1);
        r.push(string_of(line, &chars, a, b));
        k = k + 1;
    }
    r
}

/// Whether a script line has enough words to describe a file.
pub fn filter_valid_entries(line: &Vec<String>) -> (r: bool)
    ensures
        r == (line@.len() >= COLUMNS_PER_FILE),
{
    line.len() >= COLUMNS_PER_FILE
}

/// `ws` joined with `sep` between neighbours.
pub open spec fn joined(ws: Seq<Seq<char>>, sep: Seq<char>) -> Seq<char>
    decreases ws.len(),
{
    if ws.len() == 0 {
        seq![]
    } else if ws.len() == 1 {
        ws[0]
    } else {
        joined(ws.drop_last(), sep) + sep + ws.last()
    }
}

/// Joins `ws[from..]` with `sep`.
fn join_from(ws: &Vec<String>, from: usize, sep: &str) -> (r: String)
    requires
        from <= ws@.len(),
    ensures
        r@ == joined(ws@.subrange(from as int, ws@.len() as int).map_values(|w: String| w@), sep@),
{
    let ghost v = ws@.map_values(|w: String| w@);
    let mut r = String::new();
    let mut i = from;
    assert(ws@.subrange(from as int, from as int).map_values(|w: String| w@) =~= seq![]);
    while i < ws.len()
        invariant
            from <= i <= ws@.len(),
            r@ == joined(ws@.subrange(from as int, i as int).map_values(|w: String| w@), sep@),
        decreases ws@.len() - i,
    {
        let ghost cur = ws@.subrange(from as int, i + 1).map_values(|w: String| w@);
        assert(cur.drop_last() =~= ws@.subrange(from as int, i as int).map_values(|w: String| w@));
        assert(cur.last() == ws@[i as int]@);
        if i > from {
            r.append(sep);
        }
        r.append(ws[i].as_str());
        proof {
            if i == from {
                assert(cur.len() == 1);
                assert(r@ =~= cur[0]);
            }
            assert(r@ =~= joined(cur, sep@));
        }
        i = i + 1;
    }
    r
}

/// The catalog row that a valid script line of `channel_name` on `network`
/// gives: pack number, bot and size are the first three words, and the file
/// name is the remaining words joined by single spaces.
pub fn catalog_row(line: &Vec<String>, channel_name: &String, network: &String) -> (r: DownloadableFile)
    requires
        line@.len() >= COLUMNS_PER_FILE,
    ensures
        r.channel_name == *channel_name,
        r.network == *network,
        r.file_number == line@[0],
        r.bot_name == line@[1],
        r.file_size == line@[2],
        r.file_name@ == joined(
            line@.subrange(3, line@.len() as int).map_values(|w: String| w@),
            seq![' '],
        ),
{
    proof {
        reveal_strlit(" ");
        assert(" "@ =~= seq![' ']);
    }
    DownloadableFile {
        channel_name: channel_name.clone(),
        network: network.clone(),
        file_number: line[0].clone(),
        bot_name: line[1].clone(),
        file_size: line[2].clone(),
        file_name: join_from(line, 3, " "),
    }
}

/// The pattern that a catalog search matches file names against: the
/// words of the search, joined by `%` and with `%` at both ends.
pub open spec fn search_pattern(value: Seq<char>) -> Seq<char> {
    seq!['%'] + joined(words(value), seq!['%']) + seq!['%']
}

/// Builds the search pattern for `value`.
pub fn search_pattern_of(value: &str) -> (r: String)
    ensures
        r@ == search_pattern(value@),
{
    proof {
        reveal_strlit("%");
        assert("%"@ =~= seq!['%']);
    }
    let ws = adapt_script_line(value);
    assert(ws@.subrange(0, ws@.len() as int).map_values(|w: String| w@) =~= words(value@));
    let inner = join_from(&ws, 0, "%");
    let r = String::from_str("%").concat(inner.as_str()).concat("%");
    assert(r@ =~= search_pattern(value@));
    r
}

} // verus!
