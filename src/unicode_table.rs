//! The Unicode table: which graphemes each glyph of the font stands for.
use crate::chars::{char_from_u32, push_char, string_of_char};
use crate::table_parser::{
    lemma_sets_not_empty, lemma_tokens_all_ok, scan, token_ok, token_seqs, token_sets, CodepointToken, UnicodeTableParser,
};
use crate::errors::UnicodeTableError;
use vstd::prelude::*;
use vstd::string::*;
use vstd::utf8::encode_utf8;

verus! {

/// Marks the start of a multi-codepoint grapheme in the container's table.
pub const SEQUENCE_START: u8 = 0xFE;

/// Ends the list of graphemes of one glyph in the container's table.
pub const ENTRY_END: u8 = 0xFF;

/// One equivalence set per glyph, in glyph order. Each set lists graphemes that all map to that
/// glyph; its first grapheme is the one that is rendered.
pub struct UnicodeTable {
    pub data: Vec<Vec<String>>,
}

/// The table as the PSF2 container stores it after the glyph bitmaps.
pub type Psf2UnicodeTable = UnicodeTable;

/// The UTF-8 bytes of the single-codepoint graphemes of an equivalence set, in order.
pub open spec fn single_entries(set: Seq<Seq<char>>) -> Seq<u8>
    decreases set.len(),
{
    if set.len() == 0 {
        seq![]
    } else if set.last().len() == 1 {
        single_entries(set.drop_last()) + encode_utf8(set.last())
    } else {
        single_entries(set.drop_last())
    }
}

/// The UTF-8 bytes of the other graphemes of an equivalence set, in order, each preceded by the
/// sequence marker.
pub open spec fn sequence_entries(set: Seq<Seq<char>>) -> Seq<u8>
    decreases set.len(),
{
    if set.len() == 0 {
        seq![]
    } else if set.last().len() == 1 {
        sequence_entries(set.drop_last())
    } else {
        sequence_entries(set.drop_last()) + seq![SEQUENCE_START] + encode_utf8(set.last())
    }
}

/// The container's table: for each equivalence set its single codepoints, then its sequences,
/// then the end marker.
pub open spec fn table_bytes(sets: Seq<Seq<Seq<char>>>) -> Seq<u8>
    decreases sets.len(),
{
    if sets.len() == 0 {
        seq![]
    } else {
        table_bytes(sets.drop_last()) + single_entries(sets.last()) + sequence_entries(sets.last())
            + seq![ENTRY_END]
    }
}

/// The position of the first sequence from `i` on that is longer than `n`, or the length of
/// `s` if there is none.
pub open spec fn first_longer<T>(s: Seq<Seq<T>>, n: nat, i: int) -> int
    decreases s.len() - i,
{
    if i < 0 || i >= s.len() {
        s.len() as int
    } else if s[i].len() > n {
        i
    } else {
        first_longer(s, n, i + 1)
    }
}

/// Inserts `g` into `sorted` after every sequence that is no longer than it.
pub open spec fn insert_by_len<T>(sorted: Seq<Seq<T>>, g: Seq<T>) -> Seq<Seq<T>> {
    sorted.insert(first_longer(sorted, g.len(), 0), g)
}

/// `s` sorted by length; sequences of equal length keep their order.
pub open spec fn sort_by_len<T>(s: Seq<Seq<T>>) -> Seq<Seq<T>>
    decreases s.len(),
{
    if s.len() == 0 {
        s
    } else {
        insert_by_len(sort_by_len(s.drop_last()), s.last())
    }
}

/// No sequence is longer than one after it.
pub open spec fn sorted_by_len<T>(s: Seq<Seq<T>>) -> bool {
    forall|i: int, j: int| 0 <= i < j < s.len() ==> #[trigger] s[i].len() <= #[trigger] s[j].len()
}

proof fn lemma_first_longer<T>(s: Seq<Seq<T>>, n: nat, i: int)
    requires
        0 <= i <= s.len(),
    ensures
        i <= first_longer(s, n, i) <= s.len(),
        forall|k: int| i <= k < first_longer(s, n, i) ==> #[trigger] s[k].len() <= n,
        first_longer(s, n, i) < s.len() ==> s[first_longer(s, n, i)].len() > n,
    decreases s.len() - i,
{
    if i < s.len() && s[i].len() <= n {
        lemma_first_longer(s, n, i + 1);
    }
}

/// Sorting by length sorts, and keeps the number of sequences.
pub proof fn lemma_sort_by_len<T>(s: Seq<Seq<T>>)
    ensures
        sorted_by_len(sort_by_len(s)),
        sort_by_len(s).len() == s.len(),
    decreases s.len(),
{
    if s.len() > 0 {
        let t = sort_by_len(s.drop_last());
        lemma_sort_by_len(s.drop_last());
        let g = s.last();
        lemma_first_longer(t, g.len(), 0);
        let p = first_longer(t, g.len(), 0);
        let u = t.insert(p, g);
        assert forall|i: int, j: int| 0 <= i < j < u.len() implies #[trigger] u[i].len()
            <= #[trigger] u[j].len() by {
            if j < p {
            } else if j == p {
                assert(t[i].len() <= g.len());
            } else if i < p {
                assert(u[j] == t[j - 1]);
                if j - 1 > p {
                    assert(t[p].len() <= t[j - 1].len());
                }
            } else if i == p {
                assert(u[j] == t[j - 1]);
                if j - 1 > p {
                    assert(t[p].len() <= t[j - 1].len());
                }
            } else {
                assert(u[i] == t[i - 1] && u[j] == t[j - 1]);
            }
        }
    }
}

/// Every member of the sorted sequence is a member of the unsorted one.
proof fn lemma_sort_keeps_members<T>(s: Seq<Seq<T>>, j: int)
    requires
        0 <= j < s.len(),
    ensures
        exists|b: int| 0 <= b < s.len() && s[b] == sort_by_len(s)[j],
    decreases s.len(),
{
    lemma_sort_by_len(s);
    let t = sort_by_len(s.drop_last());
    lemma_sort_by_len(s.drop_last());
    let g = s.last();
    lemma_first_longer(t, g.len(), 0);
    let p = first_longer(t, g.len(), 0);
    if j == p {
        assert(s[s.len() - 1] == sort_by_len(s)[j]);
    } else {
        let j2 = if j < p {
            j
        } else {
            j - 1
        };
        assert(sort_by_len(s)[j] == t[j2]);
        lemma_sort_keeps_members(s.drop_last(), j2);
        let b = choose|b: int| 0 <= b < s.drop_last().len() && s.drop_last()[b] == t[j2];
        assert(s[b] == s.drop_last()[b]);
    }
}

/// The codepoint values of the sets of `sets`, each set sorted by grapheme length, kept up to
/// `glyph_count` sets when a count is given.
pub open spec fn table_values(sets: Seq<Seq<Seq<CodepointToken>>>, glyph_count: Option<u32>) -> Seq<
    Seq<Seq<u32>>,
> {
    let all = sets.map_values(|set: Seq<Seq<CodepointToken>>| token_values(sort_by_len(set)));
    match glyph_count {
        Some(n) => if n < all.len() {
            all.take(n as int)
        } else {
            all
        },
        None => all,
    }
}

/// The values of the tokens of a grapheme.
pub open spec fn grapheme_token_values(g: Seq<CodepointToken>) -> Seq<u32> {
    g.map_values(|t: CodepointToken| t.value)
}

/// The values of the tokens of each grapheme of a set.
pub open spec fn token_values(set: Seq<Seq<CodepointToken>>) -> Seq<Seq<u32>> {
    set.map_values(|g: Seq<CodepointToken>| grapheme_token_values(g))
}

/// The codepoint values of the characters of a grapheme.
pub open spec fn char_values(g: Seq<char>) -> Seq<u32> {
    g.map_values(|c: char| c as u32)
}

/// The codepoint values of the graphemes of a set.
pub open spec fn set_values(set: Seq<Seq<char>>) -> Seq<Seq<u32>> {
    set.map_values(|g: Seq<char>| char_values(g))
}

/// The failure reported for an invalid token.
pub open spec fn token_error(t: CodepointToken) -> UnicodeTableError {
    if t.overflow {
        UnicodeTableError::IntParseError { line: t.line, column: t.column }
    } else {
        UnicodeTableError::InvalidCodepoint { codepoint: t.value }
    }
}

/// Sorts graphemes by their number of codepoints, keeping the order of graphemes of equal
/// length.
fn sort_graphemes(graphemes: Vec<Vec<CodepointToken>>) -> (r: Vec<Vec<CodepointToken>>)
    ensures
        token_seqs(r@) == sort_by_len(token_seqs(graphemes@)),
{
    let ghost gs = token_seqs(graphemes@);
    let mut rest = graphemes;
    let mut sorted: Vec<Vec<CodepointToken>> = Vec::new();
    let mut i: usize = 0;
    assert(gs.take(0) =~= Seq::<Seq<CodepointToken>>::empty());
    assert(token_seqs(sorted@) =~= Seq::<Seq<CodepointToken>>::empty());
    while rest.len() > 0
        invariant
            gs == token_seqs(graphemes@),
            gs.len() == graphemes.len(),
            gs.len() == i + rest.len(),
            token_seqs(rest@) == gs.skip(i as int),
            token_seqs(sorted@) == sort_by_len(gs.take(i as int)),
            sorted.len() == i,
        decreases rest.len(),
    {
        proof {
            lemma_sort_by_len(gs.take(i as int));
        }
        let ghost r0 = rest@;
        let g = rest.remove(0);
        assert(token_seqs(r0)[0] == gs.skip(i as int)[0]);
        assert(g@ == gs[i as int]);
        let ghost t = token_seqs(sorted@);
        let mut p: usize = 0;
        while p < sorted.len() && sorted[p].len() <= g.len()
            invariant
                p <= sorted.len(),
                t == token_seqs(sorted@),
                first_longer(t, g@.len(), 0) == first_longer(t, g@.len(), p as int),
            decreases sorted.len() - p,
        {
            p = p + 1;
        }
        sorted.insert(p, g);
        assert(gs.take(i + 1).drop_last() =~= gs.take(i as int));
        assert(token_seqs(sorted@) =~= t.insert(p as int, g@));
        i = i + 1;
        assert forall|k: int| 0 <= k < rest@.len() implies #[trigger] token_seqs(rest@)[k]
            == gs.skip(i as int)[k] by {
            assert(rest@[k] == r0[k + 1]);
            assert(token_seqs(r0)[k + 1] == gs.skip(i - 1)[k + 1]);
        }
        assert(token_seqs(rest@) =~= gs.skip(i as int));
    }
    assert(gs.take(i as int) =~= gs);
    sorted
}

/// The string of the characters named by valid tokens.
fn grapheme_string(tokens: &Vec<CodepointToken>) -> (r: String)
    requires
        forall|k: int| 0 <= k < tokens@.len() ==> token_ok(#[trigger] tokens@[k]),
    ensures
        char_values(r@) == grapheme_token_values(tokens@),
{
    let mut s = String::new();
    let mut k: usize = 0;
    while k < tokens.len()
        invariant
            k <= tokens@.len(),
            forall|j: int| 0 <= j < tokens@.len() ==> token_ok(#[trigger] tokens@[j]),
            char_values(s@) == grapheme_token_values(tokens@.take(k as int)),
        decreases tokens@.len() - k,
    {
        assert(token_ok(tokens@[k as int]));
        let ghost before = s@;
        let ghost expected = grapheme_token_values(tokens@.take(k + 1));
        assert(char_values(before).len() == before.len());
        assert(grapheme_token_values(tokens@.take(k as int)).len() == k);
        assert(expected.len() == k + 1);
        if let Some(c) = char_from_u32(tokens[k].value) {
            push_char(&mut s, c);
            assert(c as u32 == tokens@[k as int].value);
            assert(s@ == before.push(c));
            assert forall|j: int| 0 <= j < s@.len() implies #[trigger] char_values(s@)[j]
                == expected[j] by {
                assert(expected[j] == tokens@[j].value);
                if j < before.len() {
                    assert(char_values(before)[j] == grapheme_token_values(tokens@.take(k as int))[j]);
                    assert(char_values(s@)[j] == s@[j] as u32);
                    assert(s@[j] == before[j]);
                    assert(char_values(before)[j] == before[j] as u32);
                } else {
                    assert(j == k);
                    assert(char_values(s@)[j] == s@[j] as u32);
                    assert(s@[j] == c);
                }
            }
        }
        k = k + 1;
        assert(char_values(s@) =~= grapheme_token_values(tokens@.take(k as int)));
    }
    assert(tokens@.take(k as int) =~= tokens@);
    s
}

/// Appends `bytes` to `out`.
pub fn append_bytes(out: &mut Vec<u8>, bytes: &[u8])
    ensures
        final(out)@ == old(out)@ + bytes@,
{
    let ghost start = out@;
    let mut i: usize = 0;
    while i < bytes.len()
        invariant
            i <= bytes@.len(),
            out@ == start + bytes@.take(i as int),
        decreases bytes@.len() - i,
    {
        out.push(bytes[i]);
        i = i + 1;
        assert(out@ =~= start + bytes@.take(i as int));
    }
    assert(bytes@.take(i as int) =~= bytes@);
}

impl UnicodeTable {
    /// The equivalence sets as sequences of graphemes, each a sequence of characters.
    pub open spec fn sets(&self) -> Seq<Seq<Seq<char>>> {
        self.data.deep_view()
    }

    /// Every equivalence set holds a grapheme, and every grapheme a codepoint.
    pub open spec fn wf(&self) -> bool {
        &&& forall|i: int| 0 <= i < self.sets().len() ==> (#[trigger] self.sets()[i]).len() > 0
        &&& forall|i: int, j: int|
            0 <= i < self.sets().len() && 0 <= j < self.sets()[i].len() ==> (
            #[trigger] self.sets()[i][j]).len() > 0
    }

    /// The codepoint values of the graphemes of each set.
    pub open spec fn values(&self) -> Seq<Seq<Seq<u32>>> {
        self.sets().map_values(|set: Seq<Seq<char>>| set_values(set))
    }

    /// The grapheme rendered for each glyph: the first of its equivalence set, or an empty
    /// string for a set without graphemes.
    pub fn reference_graphemes(&self) -> (r: Vec<String>)
        ensures
            r@.len() == self.sets().len(),
            forall|i: int|
                0 <= i < self.sets().len() ==> (#[trigger] r@[i])@ == if self.sets()[i].len() > 0 {
                    self.sets()[i][0]
                } else {
                    Seq::<char>::empty()
                },
    {
        let mut r: Vec<String> = Vec::new();
        let mut i: usize = 0;
        while i < self.data.len()
            invariant
                i <= self.data.len(),
                r@.len() == i,
                forall|j: int|
                    0 <= j < i ==> (#[trigger] r@[j])@ == if self.sets()[j].len() > 0 {
                        self.sets()[j][0]
                    } else {
                        Seq::<char>::empty()
                    },
            decreases self.data.len() - i,
        {
            assert(self.sets()[i as int] == self.data@[i as int].deep_view());
            if self.data[i].len() > 0 {
                r.push(self.data[i][0].clone());
            } else {
                r.push(String::new());
            }
            i = i + 1;
        }
        r
    }

    /// Reads a Unicode table from the text of a table file. Each line with graphemes becomes one
    /// equivalence set, its graphemes sorted by number of codepoints so that single codepoints
    /// come first; with a `glyph_count`, only that many sets are kept.
    pub fn from_text(text: &str, glyph_count: Option<u32>) -> (r: Result<Self, UnicodeTableError>)
        ensures
            match scan(text.spec_bytes()) {
                Err(p) => r matches Err(UnicodeTableError::ParseError { line, column }) && line
                    == p.0 && column == p.1,
                Ok(res) => match res.1 {
                    Some(t) => r == Err::<UnicodeTable, UnicodeTableError>(token_error(t)),
                    None => r matches Ok(table) && table.wf() && table.values() == table_values(
                        res.0,
                        glyph_count,
                    ) && forall|i: int|
                        0 <= i < table.sets().len() ==> sorted_by_len(#[trigger] table.sets()[i]),
                },
            },
    {
        let parsed = UnicodeTableParser::parse(text.as_bytes());
        let (sets, invalid) = match parsed {
            Err((line, column)) => {
                return Err(UnicodeTableError::ParseError { line, column });
            },
            Ok(v) => v,
        };
        if let Some(t) = invalid {
            if t.overflow {
                return Err(UnicodeTableError::IntParseError { line: t.line, column: t.column });
            }
            return Err(UnicodeTableError::InvalidCodepoint { codepoint: t.value });
        }
        proof {
            lemma_tokens_all_ok(text.spec_bytes());
            lemma_sets_not_empty(text.spec_bytes());
        }
        let ghost ts = token_sets(sets@);
        let ghost all = ts.map_values(|set: Seq<Seq<CodepointToken>>| token_values(sort_by_len(set)));
        let mut data: Vec<Vec<String>> = Vec::new();
        let mut rest = sets;
        let mut i: usize = 0;
        while rest.len() > 0
            invariant
                ts == token_sets(sets@),
                ts.len() == sets.len(),
                ts.len() == i + rest.len(),
                token_sets(rest@) == ts.skip(i as int),
                all == ts.map_values(|set: Seq<Seq<CodepointToken>>| token_values(sort_by_len(set))),
                forall|a: int, b: int, c: int|
                    0 <= a < ts.len() && 0 <= b < ts[a].len() && 0 <= c < ts[a][b].len() ==> token_ok(
                        #[trigger] ts[a][b][c],
                    ),
                data.len() == i,
                forall|a: int|
                    0 <= a < i ==> set_values((#[trigger] data@[a]).deep_view()) == all[a] && sorted_by_len(data@[a].deep_view()),
            decreases rest.len(),
        {
            let ghost r0 = rest@;
            let next = rest.remove(0);
            assert(token_sets(r0)[0] == ts.skip(i as int)[0]);
            assert(token_seqs(next@) == ts[i as int]);
            let sorted = sort_graphemes(next);
            proof {
                lemma_sort_by_len(ts[i as int]);
            }
            let mut set: Vec<String> = Vec::new();
            let mut j: usize = 0;
            while j < sorted.len()
                invariant
                    ts == token_sets(sets@),
                    i < ts.len(),
                    token_seqs(sorted@) == sort_by_len(ts[i as int]),
                    sorted_by_len(sort_by_len(ts[i as int])),
                    sort_by_len(ts[i as int]).len() == ts[i as int].len(),
                    forall|a: int, b: int, c: int|
                        0 <= a < ts.len() && 0 <= b < ts[a].len() && 0 <= c < ts[a][b].len()
                            ==> token_ok(#[trigger] ts[a][b][c]),
                    j <= sorted.len(),
                    set.len() == j,
                    forall|b: int|
                        0 <= b < j ==> char_values((#[trigger] set@[b])@) == grapheme_token_values(
                            sorted@[b]@,
                        ),
                decreases sorted.len() - j,
            {
                proof {
                    let g = sorted@[j as int]@;
                    assert(g == sort_by_len(ts[i as int])[j as int]);
                    assert forall|k: int| 0 <= k < g.len() implies token_ok(#[trigger] g[k]) by {
                        assert(exists|b: int| 0 <= b < ts[i as int].len() && ts[i as int][b] == g) by {
                            lemma_sort_keeps_members(ts[i as int], j as int);
                        }
                        let b = choose|b: int| 0 <= b < ts[i as int].len() && ts[i as int][b] == g;
                        assert(token_ok(ts[i as int][b][k]));
                    }
                }
                let s = grapheme_string(&sorted[j]);
                set.push(s);
                j = j + 1;
            }
            proof {
                let d = set.deep_view();
                assert(set_values(d) =~= all[i as int]) by {
                    assert forall|b: int| 0 <= b < d.len() implies #[trigger] set_values(d)[b] == all[i as int][b] by {
                        assert(d[b] == set@[b]@);
                    }
                }
                assert forall|a: int, b: int| 0 <= a < b < d.len() implies #[trigger] d[a].len()
                    <= #[trigger] d[b].len() by {
                    assert(d[a] == set@[a]@ && d[b] == set@[b]@);
                    assert(char_values(d[a]).len() == d[a].len());
                    assert(char_values(d[b]).len() == d[b].len());
                    assert(sort_by_len(ts[i as int])[a].len() <= sort_by_len(ts[i as int])[b].len());
                }
            }
            data.push(set);
            i = i + 1;
            assert forall|k: int| 0 <= k < rest@.len() implies #[trigger] token_sets(rest@)[k]
                == ts.skip(i as int)[k] by {
                assert(rest@[k] == r0[k + 1]);
                assert(token_sets(r0)[k + 1] == ts.skip(i - 1)[k + 1]);
            }
            assert(token_sets(rest@) =~= ts.skip(i as int));
        }
        if let Some(n) = glyph_count {
            data.truncate(n as usize);
        }
        let table = UnicodeTable { data };
        proof {
            let expected = table_values(ts, glyph_count);
            assert(table.values() =~= expected) by {
                assert forall|a: int| 0 <= a < table.values().len() implies #[trigger] table.values()[a]
                    == expected[a] by {
                    assert(table.sets()[a] == table.data@[a].deep_view());
                }
            }
            assert forall|a: int| 0 <= a < table.sets().len() implies sorted_by_len(
                #[trigger] table.sets()[a],
            ) by {
                assert(table.sets()[a] == table.data@[a].deep_view());
            }
            assert forall|a: int| 0 <= a < table.sets().len() implies (#[trigger] table.sets()[a]).len()
                > 0 by {
                assert(table.values()[a] == expected[a]);
                assert(table.values()[a].len() == table.sets()[a].len());
                lemma_sort_by_len(ts[a]);
            }
            assert forall|a: int, b: int|
                0 <= a < table.sets().len() && 0 <= b < table.sets()[a].len() implies (
                #[trigger] table.sets()[a][b]).len() > 0 by {
                assert(table.values()[a] == expected[a]);
                assert(table.values()[a][b] == char_values(table.sets()[a][b]));
                lemma_sort_by_len(ts[a]);
                assert(a < ts.len());
                assert(expected[a] == all[a]);
                assert(all[a] == token_values(sort_by_len(ts[a])));
                assert(table.values()[a].len() == table.sets()[a].len());
                assert(token_values(sort_by_len(ts[a])).len() == sort_by_len(ts[a]).len());
                assert(b < ts[a].len());
                lemma_sort_keeps_members(ts[a], b);
                let m = choose|m: int| 0 <= m < ts[a].len() && ts[a][m] == sort_by_len(ts[a])[b];
                assert(ts[a][m].len() > 0);
                assert(expected[a][b] == grapheme_token_values(sort_by_len(ts[a])[b]));
            }
        }
        Ok(table)
    }
}

impl Psf2UnicodeTable {
    /// A table for the first `num_chars` codepoints, each standing alone for its own glyph.
    /// Fails on the first value that is not a Unicode scalar value.
    pub fn new_minimal_table(num_chars: u32) -> (r: Result<Psf2UnicodeTable, UnicodeTableError>)
        ensures
            num_chars <= 0xD800 ==> (r matches Ok(t) && t.sets().len() == num_chars && forall|
                i: int,
            |
                0 <= i < num_chars ==> (#[trigger] t.sets()[i]).len() == 1 && t.sets()[i][0].len()
                    == 1 && t.sets()[i][0][0] as u32 == i),
            num_chars > 0xD800 ==> (r matches Err(UnicodeTableError::InvalidCodepoint { codepoint })
                && codepoint == 0xD800),
    {
        let mut data: Vec<Vec<String>> = Vec::new();
        let mut i: u32 = 0;
        while i < num_chars
            invariant
                i <= num_chars,
                i <= 0xD800,
                data@.len() == i,
                forall|j: int|
                    0 <= j < i ==> (#[trigger] data@[j]).deep_view().len() == 1
                        && data@[j].deep_view()[0].len() == 1 && data@[j].deep_view()[0][0] as u32
                        == j,
            decreases num_chars - i,
        {
            match char_from_u32(i) {
                Some(c) => {
                    let mut set: Vec<String> = Vec::new();
                    set.push(string_of_char(c));
                    data.push(set);
                },
                None => {
                    return Err(UnicodeTableError::InvalidCodepoint { codepoint: i });
                },
            }
            i = i + 1;
        }
        let t = UnicodeTable { data };
        assert forall|j: int| 0 <= j < num_chars implies (#[trigger] t.sets()[j]).len() == 1
            && t.sets()[j][0].len() == 1 && t.sets()[j][0][0] as u32 == j by {
            assert(t.sets()[j] == t.data@[j].deep_view());
        }
        Ok(t)
    }

    /// Encodes the table as the PSF2 container stores it: for each glyph the UTF-8 bytes of its
    /// single-codepoint graphemes, then those of its other graphemes each preceded by the
    /// sequence marker, then the end marker.
    pub fn write(self) -> (r: Vec<u8>)
        ensures
            r@ == table_bytes(self.sets()),
    {
        let ghost sets = self.sets();
        let mut out: Vec<u8> = Vec::new();
        let mut i: usize = 0;
        while i < self.data.len()
            invariant
                sets == self.data.deep_view(),
                i <= self.data.len(),
                out@ == table_bytes(sets.take(i as int)),
            decreases self.data.len() - i,
        {
            let set = &self.data[i];
            let ghost set_view = sets[i as int];
            let ghost before = out@;
            let mut j: usize = 0;
            while j < set.len()
                invariant
                    sets == self.data.deep_view(),
                    i < self.data.len(),
                    *set == self.data@[i as int],
                    set_view == sets[i as int],
                    j <= set.len(),
                    out@ == before + single_entries(set_view.take(j as int)),
                decreases set.len() - j,
            {
                let g = set[j].as_str();
                assert(g@ == set_view[j as int]);
                if g.unicode_len() == 1 {
                    append_bytes(&mut out, g.as_bytes());
                }
                assert(set_view.take(j + 1).drop_last() =~= set_view.take(j as int));
                j = j + 1;
            }
            assert(set_view.take(j as int) =~= set_view);
            let ghost middle = out@;
            let mut j: usize = 0;
            while j < set.len()
                invariant
                    sets == self.data.deep_view(),
                    i < self.data.len(),
                    *set == self.data@[i as int],
                    set_view == sets[i as int],
                    j <= set.len(),
                    out@ == middle + sequence_entries(set_view.take(j as int)),
                decreases set.len() - j,
            {
                let g = set[j].as_str();
                assert(g@ == set_view[j as int]);
                if g.unicode_len() != 1 {
                    out.push(SEQUENCE_START);
                    append_bytes(&mut out, g.as_bytes());
                }
                assert(set_view.take(j + 1).drop_last() =~= set_view.take(j as int));
                j = j + 1;
                assert(out@ =~= middle + sequence_entries(set_view.take(j as int)));
            }
            assert(set_view.take(j as int) =~= set_view);
            out.push(ENTRY_END);
            assert(sets.take(i + 1).drop_last() =~= sets.take(i as int));
            i = i + 1;
            assert(out@ =~= table_bytes(sets.take(i as int)));
        }
        assert(sets.take(i as int) =~= sets);
        out
    }
}

} // verus!
