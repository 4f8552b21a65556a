//! The lines of listings: of items one after another, and of items grouped
//! under the ids they belong to.

use vstd::prelude::*;

use crate::cli::{join, join_fields, Formatting};
use crate::model::AddressDerivation;
use crate::text::{chars_of, decimal, push_chars, push_str_chars, string_from_chars, u64_to_decimal};

verus! {

/// What a listing shows of one item: its id, its compact form and its
/// fields.
pub struct ListingRow {
    pub id: String,
    pub compact: String,
    pub fields: Vec<String>,
}

/// The texts of some strings.
pub open spec fn texts(v: Seq<String>) -> Seq<Seq<char>> {
    v.map_values(|s: String| s@)
}

proof fn lemma_texts_push(v: Seq<String>, s: String)
    ensures
        texts(v.push(s)) == texts(v).push(s@),
{
    assert(texts(v.push(s)) =~= texts(v).push(s@));
}

/// Whether a formatting prints items line by line (YAML and JSON describe
/// the whole listing at once).
pub open spec fn is_line_format(format: Formatting) -> bool {
    format is Id || format is Compact || format is Tab || format is Csv
}

/// Whether a formatting prints items line by line.
fn prints_lines(format: Formatting) -> (r: bool)
    ensures
        r == is_line_format(format),
{
    match format {
        Formatting::Id | Formatting::Compact | Formatting::Tab | Formatting::Csv => true,
        _ => false,
    }
}

/// The header lines of a listing: the headers joined by tabs or commas, or
/// none.
pub open spec fn header_lines(format: Formatting, headers: Seq<Seq<char>>) -> Seq<Seq<char>> {
    match format {
        Formatting::Tab => seq![join(headers, '\t')],
        Formatting::Csv => seq![join(headers, ',')],
        _ => Seq::empty(),
    }
}

/// The line of an item in a listing of items.
pub open spec fn row_line(format: Formatting, r: ListingRow) -> Seq<char> {
    match format {
        Formatting::Id => r.id@,
        Formatting::Compact => r.compact@,
        Formatting::Tab => join(texts(r.fields@), '\t'),
        _ => join(texts(r.fields@), ','),
    }
}

/// The lines of a listing of items.
pub open spec fn listing_spec(format: Formatting, headers: Seq<Seq<char>>, rows: Seq<ListingRow>) -> Seq<Seq<char>> {
    header_lines(format, headers) + if is_line_format(format) {
        rows.map_values(|r: ListingRow| row_line(format, r))
    } else {
        Seq::empty()
    }
}

/// The line of an item listed under an id.
pub open spec fn keyed_line(format: Formatting, id: Seq<char>, r: ListingRow) -> Seq<char> {
    match format {
        Formatting::Id => id,
        Formatting::Compact => r.compact@ + seq!['#'] + id,
        Formatting::Tab => id + seq!['\t'] + join(texts(r.fields@), '\t'),
        _ => id + seq![','] + join(texts(r.fields@), ','),
    }
}

/// The lines of the items of groups, each under its id, group after group.
pub open spec fn grouped_lines(format: Formatting, groups: Seq<(String, Vec<ListingRow>)>) -> Seq<Seq<char>>
    decreases groups.len(),
{
    if groups.len() == 0 {
        Seq::empty()
    } else {
        grouped_lines(format, groups.drop_last()) + groups.last().1@.map_values(
            |r: ListingRow| keyed_line(format, groups.last().0@, r),
        )
    }
}

/// Whether every group is empty.
pub open spec fn all_groups_empty(groups: Seq<(String, Vec<ListingRow>)>) -> bool {
    forall|i: int| 0 <= i < groups.len() ==> (#[trigger] groups[i]).1@.len() == 0
}

/// The lines of a listing of items grouped under ids: a header that adds
/// an id column, then the items of each group.
pub open spec fn grouped_listing_spec(
    format: Formatting,
    headers: Seq<Seq<char>>,
    groups: Seq<(String, Vec<ListingRow>)>,
) -> Seq<Seq<char>> {
    header_lines(format, seq!["ID"@] + headers) + if is_line_format(format) {
        grouped_lines(format, groups)
    } else {
        Seq::empty()
    }
}

/// The header line of a listing, if the formatting has one.
fn push_header(lines: &mut Vec<String>, format: Formatting, headers: &Vec<String>)
    ensures
        texts(final(lines)@) == texts(old(lines)@) + header_lines(format, texts(headers@)),
{
    let ghost before = texts(lines@);
    match format {
        Formatting::Tab => lines.push(join_fields(headers, '\t')),
        Formatting::Csv => lines.push(join_fields(headers, ',')),
        _ => {},
    }
    assert(texts(lines@) =~= before + header_lines(format, texts(headers@)));
}

/// The line of an item in a listing of items.
fn line_of(format: Formatting, r: &ListingRow) -> (l: String)
    requires
        is_line_format(format),
    ensures
        l@ == row_line(format, *r),
{
    match format {
        Formatting::Id => r.id.clone(),
        Formatting::Compact => r.compact.clone(),
        Formatting::Tab => join_fields(&r.fields, '\t'),
        _ => join_fields(&r.fields, ','),
    }
}

/// The lines of a listing of items: none when there are no items (the
/// caller says so instead), else the header line for tabs and commas
/// followed by a line per item. YAML and JSON get no lines here: they
/// describe each item on their own.
pub fn listing_lines(format: Formatting, headers: &Vec<String>, rows: &Vec<ListingRow>) -> (r: Option<Vec<String>>)
    ensures
        rows@.len() == 0 ==> r is None,
        rows@.len() > 0 ==> (r matches Some(lines) && texts(lines@) == listing_spec(format, texts(headers@), rows@)),
{
    if rows.len() == 0 {
        return None;
    }
    let mut lines: Vec<String> = Vec::new();
    push_header(&mut lines, format, headers);
    let ghost head = texts(lines@);
    if prints_lines(format) {
        let mut i: usize = 0;
        while i < rows.len()
            invariant
                i <= rows@.len(),
                is_line_format(format),
                texts(lines@) == head + rows@.take(i as int).map_values(|r: ListingRow| row_line(format, r)),
            decreases rows@.len() - i,
        {
            let l = line_of(format, &rows[i]);
            proof {
                lemma_texts_push(lines@, l);
            }
            lines.push(l);
            assert(rows@.take(i + 1).map_values(|r: ListingRow| row_line(format, r)) =~= rows@.take(
                i as int,
            ).map_values(|r: ListingRow| row_line(format, r)).push(row_line(format, rows@[i as int])));
            assert(texts(lines@) =~= head + rows@.take(i + 1).map_values(|r: ListingRow| row_line(format, r)));
            i = i + 1;
        }
        assert(rows@.take(i as int) =~= rows@);
    }
    assert(texts(lines@) =~= listing_spec(format, texts(headers@), rows@));
    Some(lines)
}

/// The line of an item listed under an id.
fn keyed_line_of(format: Formatting, id: &String, r: &ListingRow) -> (l: String)
    requires
        is_line_format(format),
    ensures
        l@ == keyed_line(format, id@, *r),
{
    match format {
        Formatting::Id => id.clone(),
        Formatting::Compact => {
            let mut out: Vec<char> = Vec::new();
            push_str_chars(&mut out, r.compact.as_str());
            out.push('#');
            push_str_chars(&mut out, id.as_str());
            assert(out@ =~= keyed_line(format, id@, *r));
            string_from_chars(out.as_slice())
        },
        _ => {
            let sep = match format {
                Formatting::Tab => '\t',
                _ => ',',
            };
            let mut out: Vec<char> = Vec::new();
            push_str_chars(&mut out, id.as_str());
            out.push(sep);
            let f = join_fields(&r.fields, sep);
            push_str_chars(&mut out, f.as_str());
            assert(out@ =~= keyed_line(format, id@, *r));
            string_from_chars(out.as_slice())
        },
    }
}

/// The lines of a listing of items grouped under ids: none when no group
/// has an item, else the header line for tabs and commas (an id column
/// first) and a line per item, group after group. YAML and JSON get no
/// lines here.
pub fn grouped_listing_lines(
    format: Formatting,
    headers: &Vec<String>,
    groups: &Vec<(String, Vec<ListingRow>)>,
) -> (r: Option<Vec<String>>)
    ensures
        all_groups_empty(groups@) ==> r is None,
        !all_groups_empty(groups@) ==> (r matches Some(lines) && texts(lines@) == grouped_listing_spec(
            format,
            texts(headers@),
            groups@,
        )),
{
    let mut k: usize = 0;
    let mut any = false;
    while k < groups.len()
        invariant
            k <= groups@.len(),
            !any <==> forall|i: int| 0 <= i < k ==> (#[trigger] groups@[i]).1@.len() == 0,
        decreases groups@.len() - k,
    {
        if groups[k].1.len() > 0 {
            any = true;
        }
        k = k + 1;
    }
    if !any {
        return None;
    }
    let mut all_headers: Vec<String> = Vec::new();
    all_headers.push(String::from_str("ID"));
    let mut h: usize = 0;
    while h < headers.len()
        invariant
            h <= headers@.len(),
            texts(all_headers@) == seq!["ID"@] + texts(headers@).take(h as int),
        decreases headers@.len() - h,
    {
        let c = headers[h].clone();
        proof {
            lemma_texts_push(all_headers@, c);
            assert(texts(headers@)[h as int] == headers@[h as int]@);
        }
        all_headers.push(c);
        assert(texts(all_headers@) =~= seq!["ID"@] + texts(headers@).take(h + 1));
        h = h + 1;
    }
    assert(texts(headers@).take(h as int) =~= texts(headers@));
    let mut lines: Vec<String> = Vec::new();
    push_header(&mut lines, format, &all_headers);
    let ghost head = texts(lines@);
    if prints_lines(format) {
        let mut i: usize = 0;
        assert(groups@.take(0) =~= Seq::<(String, Vec<ListingRow>)>::empty());
        while i < groups.len()
            invariant
                i <= groups@.len(),
                is_line_format(format),
                texts(lines@) == head + grouped_lines(format, groups@.take(i as int)),
            decreases groups@.len() - i,
        {
            let id = &groups[i].0;
            let rows = &groups[i].1;
            let ghost before = texts(lines@);
            let mut j: usize = 0;
            while j < rows.len()
                invariant
                    j <= rows@.len(),
                    is_line_format(format),
                    *rows == groups@[i as int].1,
                    *id == groups@[i as int].0,
                    texts(lines@) == before + rows@.take(j as int).map_values(|r: ListingRow| keyed_line(format, id@, r)),
                decreases rows@.len() - j,
            {
                let l = keyed_line_of(format, id, &rows[j]);
                proof {
                    lemma_texts_push(lines@, l);
                }
                lines.push(l);
                assert(rows@.take(j + 1).map_values(|r: ListingRow| keyed_line(format, id@, r)) =~= rows@.take(
                    j as int,
                ).map_values(|r: ListingRow| keyed_line(format, id@, r)).push(keyed_line(format, id@, rows@[j as int])));
                assert(texts(lines@) =~= before + rows@.take(j + 1).map_values(
                    |r: ListingRow| keyed_line(format, id@, r),
                ));
                j = j + 1;
            }
            assert(rows@.take(j as int) =~= rows@);
            assert(groups@.take(i + 1).drop_last() =~= groups@.take(i as int));
            assert(texts(lines@) =~= head + grouped_lines(format, groups@.take(i + 1)));
            i = i + 1;
        }
        assert(groups@.take(i as int) =~= groups@);
    }
    assert(texts(lines@) =~= grouped_listing_spec(format, texts(headers@), groups@));
    Some(lines)
}

/// Column headers of a listing of unspent outputs.
pub fn utxo_headers() -> (r: Vec<String>)
    ensures
        texts(r@) == seq![
            "Value"@,
            "Block height"@,
            "Block tx offset"@,
            "Output no"@,
            "Derivation index"@,
        ],
{
    let r = vec![
        String::from_str("Value"),
        String::from_str("Block height"),
        String::from_str("Block tx offset"),
        String::from_str("Output no"),
        String::from_str("Derivation index"),
    ];
    assert(texts(r@) =~= seq![
        "Value"@,
        "Block height"@,
        "Block tx offset"@,
        "Output no"@,
        "Derivation index"@,
    ]);
    r
}

/// Column headers of a listing of derivation indexes.
pub fn index_headers() -> (r: Vec<String>)
    ensures
        texts(r@) == seq!["ID"@, "Index"@],
{
    let r = vec![String::from_str("ID"), String::from_str("Index")];
    assert(texts(r@) =~= seq!["ID"@, "Index"@]);
    r
}

/// Column headers of a listing of addresses.
pub fn address_headers() -> (r: Vec<String>)
    ensures
        texts(r@) == seq!["Address"@, "Derivation index"@],
{
    let r = vec![String::from_str("Address"), String::from_str("Derivation index")];
    assert(texts(r@) =~= seq!["Address"@, "Derivation index"@]);
    r
}

/// The fields of a used address in a listing: the address and the last
/// index of its derivation path, which must not be empty.
pub fn address_fields(a: &AddressDerivation) -> (r: Vec<String>)
    requires
        a.derivation@.len() > 0,
    ensures
        texts(r@) == seq![a.address@, decimal(a.derivation@.last() as nat)],
{
    let n = a.derivation.len();
    let last = a.derivation[n - 1];
    let r = vec![a.address.clone(), u64_to_decimal(last as u64)];
    assert(texts(r@) =~= seq![a.address@, decimal(a.derivation@.last() as nat)]);
    r
}

} // verus!
