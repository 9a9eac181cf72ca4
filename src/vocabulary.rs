//! The controlled vocabulary of codes, read from a table with a header row.
use vstd::prelude::*;
use crate::order::{lemma_lex_total, lemma_lex_trans, lex_lt, str_lt};
use crate::tags::views_of;

verus! {

/// A tag of the vocabulary, the theme it belongs to, and its readable label.
pub struct Code {
    pub theme: String,
    pub tag: String,
    pub code: String,
}

/// What a code holds.
pub struct CodeModel {
    pub theme: Seq<char>,
    pub tag: Seq<char>,
    pub code: Seq<char>,
}

impl View for Code {
    type V = CodeModel;

    open spec fn view(&self) -> CodeModel {
        CodeModel { theme: self.theme@, tag: self.tag@, code: self.code@ }
    }
}

/// The header row of a comma-separated text, where it can be read as strings.
pub uninterp spec fn csv_header_of(b: Seq<u8>) -> Option<Seq<Seq<char>>>;

/// The rows after the header of a comma-separated text, each as strings where it can be read.
pub uninterp spec fn csv_rows_of(b: Seq<u8>) -> Seq<Option<Seq<Seq<char>>>>;

/// Relies on csv::Reader::headers (default reader): the first record of the text as
/// strings, or an error where it cannot be read.
#[verifier::external_body]
fn read_header(b: &[u8]) -> (r: Option<Vec<String>>)
    ensures
        r.deep_view() == csv_header_of(b@),
{
    csv::Reader::from_reader(b).headers().ok().map(|h| h.iter().map(String::from).collect())
}

/// Relies on csv::Reader::records (default reader): each record after the header in
/// order, as strings, or an error where one cannot be read.
#[verifier::external_body]
fn read_rows(b: &[u8]) -> (r: Vec<Option<Vec<String>>>)
    ensures
        r.deep_view() == csv_rows_of(b@),
{
    csv::Reader::from_reader(b).records().map(|row| row.ok().map(|rec| rec.iter().map(String::from).collect())).collect()
}

/// Column `c` of header `h` is named `name`, and no other column is.
pub open spec fn unique_column(h: Seq<Seq<char>>, name: Seq<char>, c: int) -> bool {
    0 <= c < h.len() && h[c] == name && forall|j: int| 0 <= j < h.len() && h[j] == name ==> j == c
}

/// Where the theme, tag and label of a code stand in a row: by name under a readable
/// header, each named exactly once; by position when the header cannot be read.
pub open spec fn columns(h: Option<Seq<Seq<char>>>) -> Option<(int, int, int)> {
    match h {
        None => Some((0, 1, 2)),
        Some(h) => {
            if (exists|a: int| unique_column(h, "theme"@, a)) && (exists|b: int|
                unique_column(h, "tag"@, b)) && (exists|c: int| unique_column(h, "code"@, c)) {
                Some(
                    (
                        choose|a: int| unique_column(h, "theme"@, a),
                        choose|b: int| unique_column(h, "tag"@, b),
                        choose|c: int| unique_column(h, "code"@, c),
                    ),
                )
            } else {
                None
            }
        },
    }
}

/// The code that a row gives, where it has all three columns.
pub open spec fn row_code(r: Seq<Seq<char>>, c: (int, int, int)) -> Option<CodeModel> {
    if c.0 < r.len() && c.1 < r.len() && c.2 < r.len() {
        Some(CodeModel { theme: r[c.0], tag: r[c.1], code: r[c.2] })
    } else {
        None
    }
}

/// The codes of the rows that decode, in order; the others are left out.
pub open spec fn decode_rows(rows: Seq<Option<Seq<Seq<char>>>>, c: (int, int, int)) -> Seq<CodeModel>
    decreases rows.len(),
{
    if rows.len() == 0 {
        Seq::empty()
    } else {
        let prev = decode_rows(rows.drop_last(), c);
        match rows.last() {
            Some(r) => match row_code(r, c) {
                Some(m) => prev.push(m),
                None => prev,
            },
            None => prev,
        }
    }
}

/// The codes of a table with header `h` and rows `rows`.
pub open spec fn decode_table(h: Option<Seq<Seq<char>>>, rows: Seq<Option<Seq<Seq<char>>>>) -> Seq<CodeModel> {
    match columns(h) {
        Some(c) => decode_rows(rows, c),
        None => Seq::empty(),
    }
}

/// A header `theme,tag,code` reads the theme, tag and label of each row from its first,
/// second and third field.
pub proof fn lemma_standard_header()
    ensures
        columns(Some(seq!["theme"@, "tag"@, "code"@])) == Some((0int, 1int, 2int)),
{
    reveal_strlit("theme");
    reveal_strlit("tag");
    reveal_strlit("code");
    let h = seq!["theme"@, "tag"@, "code"@];
    assert("theme"@.len() == 5 && "tag"@.len() == 3 && "code"@.len() == 4);
    assert(h.len() == 3 && h[0] == "theme"@ && h[1] == "tag"@ && h[2] == "code"@);
    assert("tag"@ != "code"@) by {
        assert("tag"@.len() != "code"@.len());
    }
    assert("theme"@ != "tag"@ && "theme"@ != "code"@);
    assert(unique_column(h, "theme"@, 0));
    assert(unique_column(h, "tag"@, 1));
    assert(unique_column(h, "code"@, 2));
    assert((choose|a: int| unique_column(h, "theme"@, a)) == 0);
    assert((choose|b: int| unique_column(h, "tag"@, b)) == 1);
    assert((choose|c: int| unique_column(h, "code"@, c)) == 2);
    assert(exists|a: int| unique_column(h, "theme"@, a));
    assert(exists|b: int| unique_column(h, "tag"@, b));
    assert(exists|c: int| unique_column(h, "code"@, c));
    assert(columns(Some(h)) == Some((0int, 1int, 2int)));
}

/// The column of `h` named `name`, where exactly one is.
fn find_column(h: &Vec<String>, name: &str) -> (r: Option<usize>)
    ensures
        r is Some <==> exists|c: int| unique_column(h.deep_view(), name@, c),
        r matches Some(c) ==> unique_column(h.deep_view(), name@, c as int),
{
    let target = String::from_str(name);
    let mut found: Option<usize> = None;
    let mut i: usize = 0;
    while i < h.len()
        invariant
            i <= h.len(),
            target@ == name@,
            h.deep_view().len() == h.len(),
            forall|k: int| 0 <= k < h.len() ==> #[trigger] h.deep_view()[k] == h@[k]@,
            match found {
                Some(c) => c < i && h@[c as int]@ == name@ && forall|j: int|
                    0 <= j < i && h@[j]@ == name@ ==> j == c,
                None => forall|j: int| 0 <= j < i ==> h@[j]@ != name@,
            },
        decreases h.len() - i,
    {
        if h[i] == target {
            if found.is_some() {
                let ghost c = found.unwrap();
                assert(h.deep_view()[c as int] == name@);
                assert(h.deep_view()[i as int] == name@);
                return None;
            }
            found = Some(i);
        }
        i = i + 1;
    }
    match found {
        Some(c) => {
            assert(unique_column(h.deep_view(), name@, c as int));
        },
        None => {
            assert forall|c: int| !unique_column(h.deep_view(), name@, c) by {
                if 0 <= c < h.len() {
                    assert(h.deep_view()[c] == h@[c]@);
                }
            }
        },
    }
    found
}

/// The codes of a table with header `header` and rows `rows`, as the vocabulary reader
/// takes them: rows that cannot be read or lack a column are left out.
pub fn codes_from_table(header: Option<Vec<String>>, rows: Vec<Option<Vec<String>>>) -> (r: Vec<Code>)
    ensures
        r@.map_values(|c: Code| c@) == decode_table(header.deep_view(), rows.deep_view()),
{
    let ghost expect = columns(header.deep_view());
    let cols: Option<(usize, usize, usize)> = match &header {
        None => Some((0, 1, 2)),
        Some(h) => {
            assert(header.deep_view() == Some(h.deep_view()));
            let a = find_column(h, "theme");
            let b = find_column(h, "tag");
            let c = find_column(h, "code");
            match (a, b, c) {
                (Some(a), Some(b), Some(c)) => {
                    proof {
                        let hv = h.deep_view();
                        assert(unique_column(hv, "theme"@, a as int));
                        assert((choose|x: int| unique_column(hv, "theme"@, x)) == a as int);
                        assert((choose|x: int| unique_column(hv, "tag"@, x)) == b as int);
                        assert((choose|x: int| unique_column(hv, "code"@, x)) == c as int);
                    }
                    Some((a, b, c))
                },
                _ => None,
            }
        },
    };
    assert(match cols {
        Some(t) => expect == Some((t.0 as int, t.1 as int, t.2 as int)),
        None => expect is None,
    });
    let mut out: Vec<Code> = Vec::new();
    match cols {
        None => {
            assert(out@.map_values(|c: Code| c@) =~= Seq::<CodeModel>::empty());
            out
        },
        Some((a, b, c)) => {
            let ghost cs = (a as int, b as int, c as int);
            assert(expect == Some(cs));
            let mut k: usize = 0;
            assert(rows.deep_view().take(0).len() == 0);
            while k < rows.len()
                invariant
                    k <= rows.len(),
                    cs == (a as int, b as int, c as int),
                    rows.deep_view().len() == rows.len(),
                    out@.map_values(|c: Code| c@) == decode_rows(rows.deep_view().take(k as int), cs),
                decreases rows.len() - k,
            {
                let ghost before = out@;
                assert(rows.deep_view().take(k + 1).drop_last() =~= rows.deep_view().take(k as int));
                assert(rows.deep_view()[k as int] == rows@[k as int].deep_view());
                assert(rows.deep_view().take(k + 1).last() == rows.deep_view()[k as int]);
                match &rows[k] {
                    Some(row) => {
                        assert(row.deep_view().len() == row.len());
                        assert(rows.deep_view()[k as int] == Some(row.deep_view()));
                        if a < row.len() && b < row.len() && c < row.len() {
                            assert(row.deep_view()[a as int] == row@[a as int]@);
                            assert(row.deep_view()[b as int] == row@[b as int]@);
                            assert(row.deep_view()[c as int] == row@[c as int]@);
                            out.push(Code { theme: row[a].clone(), tag: row[b].clone(), code: row[c].clone() });
                            assert(out@.map_values(|c: Code| c@) =~= before.map_values(|c: Code| c@).push(out@[before.len() as int]@));
                            assert(row_code(row.deep_view(), cs) == Some(out@[before.len() as int]@));
                        } else {
                            assert(row_code(row.deep_view(), cs) is None);
                        }
                    },
                    None => {
                        assert(rows.deep_view()[k as int] is None);
                    },
                }
                k = k + 1;
            }
            assert(rows.deep_view().take(k as int) =~= rows.deep_view());
            out
        },
    }
}

/// The codes of a comma-separated vocabulary text with header `theme,tag,code`; rows
/// that fail to decode are dropped.
pub fn parse_vocabulary(text: &[u8]) -> (r: Vec<Code>)
    ensures
        r@.map_values(|c: Code| c@) == decode_table(csv_header_of(text@), csv_rows_of(text@)),
{
    let header = read_header(text);
    let rows = read_rows(text);
    codes_from_table(header, rows)
}

/// Each string of `s` sorts strictly before every later one.
pub open spec fn strictly_sorted(s: Seq<String>) -> bool {
    forall|i: int, j: int| 0 <= i < j < s.len() ==> lex_lt(#[trigger] s[i]@, #[trigger] s[j]@)
}

/// The themes that the codes of `codes` belong to.
pub open spec fn themes_in(codes: Seq<Code>) -> Set<Seq<char>> {
    Set::new(|x: Seq<char>| exists|i: int| 0 <= i < codes.len() && (#[trigger] codes[i]).theme@ == x)
}

/// Puts `t` into the sorted `v` at its place, unless it is there already.
fn insert_sorted(v: &mut Vec<String>, t: String)
    requires
        strictly_sorted(old(v)@),
    ensures
        strictly_sorted(final(v)@),
        views_of(final(v)@) == views_of(old(v)@).insert(t@),
{
    let mut p: usize = 0;
    while p < v.len() && str_lt(&v[p], &t)
        invariant
            p <= v.len(),
            forall|i: int| 0 <= i < p ==> lex_lt(#[trigger] v@[i]@, t@),
        decreases v.len() - p,
    {
        p = p + 1;
    }
    let ghost before = v@;
    if p < v.len() && v[p] == t {
        assert(views_of(before) =~= views_of(before).insert(t@));
        return;
    }
    proof {
        if p < v.len() {
            lemma_lex_total(v@[p as int]@, t@);
            assert forall|j: int| p <= j < v.len() implies lex_lt(t@, #[trigger] v@[j]@) by {
                if j > p {
                    lemma_lex_trans(t@, v@[p as int]@, v@[j]@);
                }
            }
        }
    }
    v.insert(p, t);
    assert forall|i: int, j: int| 0 <= i < j < v.len() implies lex_lt(#[trigger] v@[i]@, #[trigger] v@[j]@) by {
        if j < p {
            assert(v@[i] == before[i] && v@[j] == before[j]);
        } else if j == p {
            assert(v@[i] == before[i]);
        } else if i == p {
            assert(v@[j] == before[j - 1]);
        } else if i < p {
            assert(v@[i] == before[i] && v@[j] == before[j - 1]);
            lemma_lex_trans(before[i]@, t@, before[j - 1]@);
        } else {
            assert(v@[i] == before[i - 1] && v@[j] == before[j - 1]);
        }
    }
    assert(views_of(v@) =~= views_of(before).insert(t@)) by {
        assert forall|x: Seq<char>| views_of(before).contains(x) implies views_of(v@).contains(x) by {
            let i = choose|i: int| 0 <= i < before.len() && (#[trigger] before[i])@ == x;
            if i < p {
                assert(v@[i] == before[i]);
            } else {
                assert(v@[i + 1] == before[i]);
            }
        }
        assert(v@[p as int]@ == t@);
        assert forall|x: Seq<char>| views_of(v@).contains(x) && x != t@ implies views_of(before).contains(x) by {
            let i = choose|i: int| 0 <= i < v.len() && (#[trigger] v@[i])@ == x;
            if i < p {
                assert(v@[i] == before[i]);
            } else if i > p {
                assert(v@[i] == before[i - 1]);
            }
        }
    }
}

/// The distinct themes of `codes`, sorted ascending.
pub fn themes_of(codes: &Vec<Code>) -> (r: Vec<String>)
    ensures
        strictly_sorted(r@),
        views_of(r@) == themes_in(codes@),
{
    let mut r: Vec<String> = Vec::new();
    let mut k: usize = 0;
    assert(views_of(r@) =~= themes_in(codes@.take(0)));
    while k < codes.len()
        invariant
            k <= codes.len(),
            strictly_sorted(r@),
            views_of(r@) == themes_in(codes@.take(k as int)),
        decreases codes.len() - k,
    {
        insert_sorted(&mut r, codes[k].theme.clone());
        assert(themes_in(codes@.take(k + 1)) =~= themes_in(codes@.take(k as int)).insert(codes@[k as int].theme@)) by {
            assert(codes@.take(k + 1)[k as int] == codes@[k as int]);
            assert forall|x: Seq<char>| themes_in(codes@.take(k as int)).contains(x) implies themes_in(
                codes@.take(k + 1),
            ).contains(x) by {
                let i = choose|i: int| 0 <= i < k && (#[trigger] codes@.take(k as int)[i]).theme@ == x;
                assert(codes@.take(k + 1)[i] == codes@.take(k as int)[i]);
            }
            assert forall|x: Seq<char>| themes_in(codes@.take(k + 1)).contains(x) && x != codes@[k as int].theme@
                implies themes_in(codes@.take(k as int)).contains(x) by {
                let i = choose|i: int| 0 <= i < k + 1 && (#[trigger] codes@.take(k + 1)[i]).theme@ == x;
                assert(codes@.take(k + 1)[i] == codes@.take(k as int)[i]);
            }
        }
        k = k + 1;
    }
    assert(codes@.take(k as int) =~= codes@);
    r
}

} // verus!
