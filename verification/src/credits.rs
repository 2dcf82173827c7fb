use vstd::prelude::*;
use vstd::utf8::encode_utf8;

use crate::block::{
    view_column, DataBlock, DataField, DataSchema, DataType, DataValue, ErrorCode, SpecField,
    SpecValue,
};

verus! {

broadcast use vstd::string::group_string_axioms;

// ---------------------------------------------------------------------------
// Splitting and trimming text
// ---------------------------------------------------------------------------
/// Whether `c` is white space: the characters of Unicode's `White_Space` property.
pub open spec fn is_whitespace(c: char) -> bool {
    let u = c as u32;
    ||| 0x9 <= u <= 0xD
    ||| u == 0x20
    ||| u == 0x85
    ||| u == 0xA0
    ||| u == 0x1680
    ||| 0x2000 <= u <= 0x200A
    ||| u == 0x2028
    ||| u == 0x2029
    ||| u == 0x202F
    ||| u == 0x205F
    ||| u == 0x3000
}

/// `s` without its leading white space.
pub open spec fn trim_start(s: Seq<char>) -> Seq<char>
    decreases s.len(),
{
    if s.len() > 0 && is_whitespace(s[0]) {
        trim_start(s.drop_first())
    } else {
        s
    }
}

/// `s` without its trailing white space.
pub open spec fn trim_end(s: Seq<char>) -> Seq<char>
    decreases s.len(),
{
    if s.len() > 0 && is_whitespace(s.last()) {
        trim_end(s.drop_last())
    } else {
        s
    }
}

/// `s` without its leading and trailing white space.
pub open spec fn trim(s: Seq<char>) -> Seq<char> {
    trim_end(trim_start(s))
}

/// The pieces of `s` between the occurrences of `sep`: one more than there are of them.
pub open spec fn split_all(s: Seq<char>, sep: char) -> Seq<Seq<char>>
    decreases s.len(),
{
    if s.len() == 0 {
        seq![Seq::empty()]
    } else {
        let init = split_all(s.drop_last(), sep);
        if s.last() == sep {
            init.push(Seq::empty())
        } else {
            init.update(init.len() - 1, init.last().push(s.last()))
        }
    }
}

/// The pieces of `s` that `sep` terminates: those between the occurrences of `sep`, but for a
/// last piece that is empty.
pub open spec fn split_terminator(s: Seq<char>, sep: char) -> Seq<Seq<char>> {
    let p = split_all(s, sep);
    if p.last().len() == 0 {
        p.drop_last()
    } else {
        p
    }
}

/// The value of a credit entry: the bytes of the trimmed text.
pub open spec fn credit_value(piece: Seq<char>) -> SpecValue {
    SpecValue::String(encode_utf8(trim(piece)))
}

/// The column of the comma terminated, trimmed entries of `s`.
pub open spec fn credit_column(s: Seq<char>) -> Seq<SpecValue> {
    split_terminator(s, ',').map_values(|p: Seq<char>| credit_value(p))
}

pub fn is_whitespace_char(c: char) -> (b: bool)
    ensures
        b == is_whitespace(c),
{
    let u = c as u32;
    (0x9 <= u && u <= 0xD) || u == 0x20 || u == 0x85 || u == 0xA0 || u == 0x1680 || (0x2000 <= u
        && u <= 0x200A) || u == 0x2028 || u == 0x2029 || u == 0x202F || u == 0x205F || u == 0x3000
}

proof fn lemma_map_push<A, B>(s: Seq<A>, a: A, f: spec_fn(A) -> B)
    ensures
        s.push(a).map_values(f) == s.map_values(f).push(f(a)),
{
    assert(s.push(a).map_values(f) =~= s.map_values(f).push(f(a)));
}

fn chars_of(s: &str) -> (v: Vec<char>)
    ensures
        v@ == s@,
{
    let mut v: Vec<char> = Vec::new();
    for c in it: s.chars()
        invariant
            v@ == it.seq().take(it.index() as int),
            it.seq() == s@,
    {
        v.push(c);
    }
    v
}

/// The bounds of `v[a..b]` without its leading and trailing white space.
fn trim_bounds(v: &Vec<char>, a: usize, b: usize) -> (r: (usize, usize))
    requires
        a <= b <= v@.len(),
    ensures
        a <= r.0 <= r.1 <= b,
        v@.subrange(r.0 as int, r.1 as int) == trim(v@.subrange(a as int, b as int)),
{
    let mut lo = a;
    while lo < b && is_whitespace_char(v[lo])
        invariant
            a <= lo <= b <= v@.len(),
            trim_start(v@.subrange(a as int, b as int)) == trim_start(v@.subrange(lo as int, b as int)),
        decreases b - lo,
    {
        assert(v@.subrange(lo as int, b as int).drop_first() =~= v@.subrange(lo + 1, b as int));
        lo = lo + 1;
    }
    let mut hi = b;
    while hi > lo && is_whitespace_char(v[hi - 1])
        invariant
            a <= lo <= hi <= b <= v@.len(),
            trim_end(v@.subrange(lo as int, b as int)) == trim_end(v@.subrange(lo as int, hi as int)),
        decreases hi - lo,
    {
        assert(v@.subrange(lo as int, hi as int).drop_last() =~= v@.subrange(lo as int, hi - 1));
        hi = hi - 1;
    }
    (lo, hi)
}

/// The value of the entry `v[a..b]` of the text `s`.
fn credit_cell(s: &str, v: &Vec<char>, a: usize, b: usize) -> (c: DataValue)
    requires
        v@ == s@,
        a <= b <= v@.len(),
    ensures
        c@ == credit_value(v@.subrange(a as int, b as int)),
{
    let (lo, hi) = trim_bounds(v, a, b);
    DataValue::String(s.substring_char(lo, hi).as_bytes_vec())
}

/// The column of the comma terminated, trimmed entries of `s`.
pub fn credit_column_of(s: &str) -> (c: Vec<DataValue>)
    ensures
        view_column(c) == credit_column(s@),
{
    let v = chars_of(s);
    let n = v.len();
    let mut cells: Vec<DataValue> = Vec::new();
    let mut start: usize = 0;
    let ghost mut done: Seq<Seq<char>> = Seq::empty();
    assert(v@.take(0) =~= Seq::<char>::empty());
    assert(v@.subrange(0, 0) =~= Seq::<char>::empty());
    assert(split_all(Seq::<char>::empty(), ',') == seq![Seq::<char>::empty()]);
    assert(done.push(v@.subrange(0, 0)) =~= seq![Seq::<char>::empty()]);
    for i in 0..n
        invariant
            n == v@.len(),
            v@ == s@,
            start <= i,
            split_all(v@.take(i as int), ',') == done.push(v@.subrange(start as int, i as int)),
            view_column(cells) == done.map_values(|p: Seq<char>| credit_value(p)),
    {
        assert(v@.take(i + 1).drop_last() =~= v@.take(i as int));
        assert(v@.take(i + 1).last() == v@[i as int]);
        if v[i] == ',' {
            let cell = credit_cell(s, &v, start, i);
            let ghost prev = cells@;
            cells.push(cell);
            proof {
                assert(cells@ == prev.push(cell));
                lemma_map_push(prev, cell, |x: DataValue| x@);
                lemma_map_push(
                    done,
                    v@.subrange(start as int, i as int),
                    |p: Seq<char>| credit_value(p),
                );
                done = done.push(v@.subrange(start as int, i as int));
                assert(v@.subrange(i + 1, i + 1) =~= Seq::<char>::empty());
            }
            start = i + 1;
        } else {
            assert(v@.subrange(start as int, i + 1) =~= v@.subrange(start as int, i as int).push(
                v@[i as int],
            ));
            assert(done.push(v@.subrange(start as int, i as int)).update(
                done.len() as int,
                v@.subrange(start as int, i + 1),
            ) =~= done.push(v@.subrange(start as int, i + 1)));
        }
    }
    assert(v@.take(n as int) =~= v@);
    if start < n {
        let cell = credit_cell(s, &v, start, n);
        let ghost prev = cells@;
        cells.push(cell);
        assert(cells@ == prev.push(cell));
        assert(done.push(v@.subrange(start as int, n as int)).drop_last() =~= done);
        proof {
            lemma_map_push(prev, cell, |x: DataValue| x@);
            lemma_map_push(done, v@.subrange(start as int, n as int), |p: Seq<char>| credit_value(p));
        }
    } else {
        assert(done.push(v@.subrange(start as int, n as int)).drop_last() =~= done);
    }
    cells
}

// ---------------------------------------------------------------------------
// The table
// ---------------------------------------------------------------------------
/// The identity of a table: its id and the sequence number of its metadata.
#[derive(PartialEq, Eq, Structural, Clone, Copy, Debug)]
pub struct TableIdent {
    pub table_id: u64,
    pub seq: u64,
}

/// The metadata of a table.
#[derive(Debug, PartialEq, Eq)]
pub struct TableMeta {
    pub schema: DataSchema,
    pub engine: String,
}

/// A table's description.
#[derive(Debug, PartialEq, Eq)]
pub struct TableInfo {
    pub ident: TableIdent,
    pub desc: String,
    pub name: String,
    pub meta: TableMeta,
}

impl TableInfo {
    /// The table's schema.
    pub fn schema(&self) -> (s: &DataSchema)
        ensures
            s == &self.meta.schema,
    {
        &self.meta.schema
    }
}

/// The schema of the credits table: the name, version and license of each dependency, as byte
/// strings.
pub open spec fn credits_schema() -> Seq<SpecField> {
    seq![
        SpecField { name: "name"@, data_type: DataType::String },
        SpecField { name: "version"@, data_type: DataType::String },
        SpecField { name: "license"@, data_type: DataType::String },
    ]
}

/// The system table `system.credits`: the dependencies the server was built with.
pub struct CreditsTable {
    table_info: TableInfo,
}

impl CreditsTable {
    #[verifier::type_invariant]
    spec fn three_fields(&self) -> bool {
        self.table_info.meta.schema.fields@.len() == 3
    }

    /// The table's full name.
    pub fn table_name() -> (s: &'static str)
        ensures
            s@ == "system.credits"@,
    {
        "system.credits"
    }

    /// The credits table with the id `table_id`.
    pub fn create(table_id: u64) -> (t: CreditsTable)
        ensures
            t.get_info().ident == (TableIdent { table_id, seq: 0 }),
            t.get_info().desc@ == "'system'.'credits'"@,
            t.get_info().name@ == "credits"@,
            t.get_info().meta.engine@ == "SystemCredits"@,
            t.get_info().meta.schema@ == credits_schema(),
    {
        let mut fields: Vec<DataField> = Vec::new();
        fields.push(DataField { name: "name".to_owned(), data_type: DataType::String });
        fields.push(DataField { name: "version".to_owned(), data_type: DataType::String });
        fields.push(DataField { name: "license".to_owned(), data_type: DataType::String });
        let schema = DataSchema { fields };
        assert(schema@ =~= credits_schema());
        let table_info = TableInfo {
            desc: "'system'.'credits'".to_owned(),
            name: "credits".to_owned(),
            ident: TableIdent { table_id, seq: 0 },
            meta: TableMeta { schema, engine: "SystemCredits".to_owned() },
        };
        CreditsTable { table_info }
    }

    /// The table's description.
    pub closed spec fn get_info(&self) -> TableInfo {
        self.table_info
    }

    /// The table's description.
    pub fn get_table_info(&self) -> (i: &TableInfo)
        ensures
            *i == self.get_info(),
    {
        &self.table_info
    }

    /// The table's rows: one per entry of the comma terminated lists `names`, `versions` and
    /// `licenses`, each entry trimmed.
    pub fn get_full_data(&self, names: &str, versions: &str, licenses: &str) -> (r: Result<
        DataBlock,
        ErrorCode,
    >)
        ensures
            r matches Ok(b) && b@.schema == self.get_info().meta.schema@ && b@.columns == seq![
                credit_column(names@),
                credit_column(versions@),
                credit_column(licenses@),
            ],
    {
        proof {
            use_type_invariant(self);
        }
        let mut columns: Vec<Vec<DataValue>> = Vec::new();
        columns.push(credit_column_of(names));
        columns.push(credit_column_of(versions));
        columns.push(credit_column_of(licenses));
        let schema = self.table_info.schema().copy();
        let b = DataBlock::create(schema, columns);
        assert(b@.columns =~= seq![
            credit_column(names@),
            credit_column(versions@),
            credit_column(licenses@),
        ]);
        Ok(b)
    }
}


// ---------------------------------------------------------------------------
// Laws
// ---------------------------------------------------------------------------
/// The pieces joined, with `sep` between each two.
pub open spec fn join(pieces: Seq<Seq<char>>, sep: char) -> Seq<char>
    decreases pieces.len(),
{
    if pieces.len() == 0 {
        Seq::empty()
    } else if pieces.len() == 1 {
        pieces[0]
    } else {
        join(pieces.drop_last(), sep).push(sep) + pieces.last()
    }
}

proof fn lemma_split_all_nonempty(s: Seq<char>, sep: char)
    ensures
        split_all(s, sep).len() >= 1,
    decreases s.len(),
{
    if s.len() > 0 {
        lemma_split_all_nonempty(s.drop_last(), sep);
    }
}

proof fn lemma_join_extend_last(p: Seq<Seq<char>>, sep: char, c: char)
    requires
        p.len() >= 1,
    ensures
        join(p.update(p.len() - 1, p.last().push(c)), sep) == join(p, sep).push(c),
{
    let q = p.update(p.len() - 1, p.last().push(c));
    if p.len() == 1 {
        assert(q[0] == p[0].push(c));
    } else {
        assert(q.drop_last() =~= p.drop_last());
        assert(join(p, sep).push(c) =~= join(p.drop_last(), sep).push(sep) + p.last().push(c));
    }
}

/// Splitting text at a separator loses nothing: joining the pieces with the separator gives
/// the text back.
pub proof fn law_split_join(s: Seq<char>, sep: char)
    ensures
        join(split_all(s, sep), sep) == s,
    decreases s.len(),
{
    if s.len() == 0 {
        assert(split_all(s, sep) =~= seq![Seq::<char>::empty()]);
        assert(s =~= Seq::<char>::empty());
    } else {
        let init = split_all(s.drop_last(), sep);
        law_split_join(s.drop_last(), sep);
        lemma_split_all_nonempty(s.drop_last(), sep);
        if s.last() == sep {
            assert(init.push(Seq::empty()).drop_last() =~= init);
            assert(join(init, sep).push(sep) + Seq::empty() =~= s);
        } else {
            lemma_join_extend_last(init, sep, s.last());
            assert(s.drop_last().push(s.last()) =~= s);
        }
    }
}

/// A comma terminated list has one entry per comma, and one more where text follows the last
/// comma.
pub proof fn law_entry_count(s: Seq<char>, sep: char)
    ensures
        split_all(s, sep).len() == s.filter(|c: char| c == sep).len() + 1,
        split_terminator(s, sep).len() == split_all(s, sep).len() - (if split_all(
            s,
            sep,
        ).last().len() == 0 {
            1int
        } else {
            0int
        }),
    decreases s.len(),
{
    reveal_with_fuel(Seq::filter, 1);
    if s.len() > 0 {
        law_entry_count(s.drop_last(), sep);
        lemma_split_all_nonempty(s.drop_last(), sep);
    }
}

proof fn lemma_trim_start_clean(s: Seq<char>)
    ensures
        trim_start(s).len() > 0 ==> !is_whitespace(trim_start(s)[0]),
        trim_start(s).len() <= s.len(),
        exists|k: int| 0 <= k <= s.len() && trim_start(s) == s.subrange(k, s.len() as int),
    decreases s.len(),
{
    if s.len() > 0 && is_whitespace(s[0]) {
        lemma_trim_start_clean(s.drop_first());
        let k = choose|k: int|
            0 <= k <= s.drop_first().len() && trim_start(s.drop_first()) == s.drop_first().subrange(
                k,
                s.drop_first().len() as int,
            );
        assert(s.drop_first().subrange(k, s.drop_first().len() as int) =~= s.subrange(
            k + 1,
            s.len() as int,
        ));
    } else {
        assert(s.subrange(0, s.len() as int) =~= s);
    }
}

proof fn lemma_trim_end_clean(s: Seq<char>)
    ensures
        trim_end(s).len() > 0 ==> !is_whitespace(trim_end(s).last()),
        exists|k: int| 0 <= k <= s.len() && trim_end(s) == s.subrange(0, k),
    decreases s.len(),
{
    if s.len() > 0 && is_whitespace(s.last()) {
        lemma_trim_end_clean(s.drop_last());
        let k = choose|k: int|
            0 <= k <= s.drop_last().len() && trim_end(s.drop_last()) == s.drop_last().subrange(0, k);
        assert(s.drop_last().subrange(0, k) =~= s.subrange(0, k));
    } else {
        assert(s.subrange(0, s.len() as int) =~= s);
    }
}

/// A trimmed entry neither starts nor ends with white space.
pub proof fn law_trim_clean(s: Seq<char>)
    ensures
        trim(s).len() > 0 ==> !is_whitespace(trim(s)[0]) && !is_whitespace(trim(s).last()),
{
    lemma_trim_start_clean(s);
    lemma_trim_end_clean(trim_start(s));
    let t = trim_start(s);
    let k = choose|k: int| 0 <= k <= t.len() && trim_end(t) == t.subrange(0, k);
    if trim(s).len() > 0 {
        assert(trim(s)[0] == t[0]);
    }
}


proof fn lemma_split_pieces_no_sep(s: Seq<char>, sep: char)
    ensures
        forall|i: int| 0 <= i < split_all(s, sep).len() ==> !(#[trigger] split_all(s, sep)[i]).contains(sep),
        split_all(s, sep).last().len() == 0 <==> (s.len() == 0 || s.last() == sep),
    decreases s.len(),
{
    lemma_split_all_nonempty(s, sep);
    if s.len() > 0 {
        let init = split_all(s.drop_last(), sep);
        lemma_split_pieces_no_sep(s.drop_last(), sep);
        lemma_split_all_nonempty(s.drop_last(), sep);
        let p = split_all(s, sep);
        if s.last() == sep {
            assert forall|i: int| 0 <= i < p.len() implies !(#[trigger] p[i]).contains(sep) by {
                if i < init.len() {
                    assert(p[i] == init[i]);
                } else {
                    assert(p[i] =~= Seq::<char>::empty());
                }
            }
        } else {
            assert forall|i: int| 0 <= i < p.len() implies !(#[trigger] p[i]).contains(sep) by {
                if i < init.len() - 1 {
                    assert(p[i] == init[i]);
                } else {
                    let q = init.last().push(s.last());
                    assert(p[i] == q);
                    assert(!init[init.len() - 1].contains(sep));
                    if q.contains(sep) {
                        let j = choose|j: int| 0 <= j < q.len() && q[j] == sep;
                        if j < q.len() - 1 {
                            assert(init.last()[j] == sep);
                        }
                    }
                }
            }
        }
    }
}

/// What ends a comma terminated list `s`: its last comma, where it ends with one.
pub open spec fn final_comma(s: Seq<char>) -> Seq<char> {
    if s.len() > 0 && s.last() == ',' {
        seq![',']
    } else {
        Seq::empty()
    }
}

proof fn lemma_terminator_join(s: Seq<char>)
    ensures
        s == join(split_terminator(s, ','), ',') + final_comma(s),
{
    let p = split_all(s, ',');
    let pieces = split_terminator(s, ',');
    law_split_join(s, ',');
    lemma_split_pieces_no_sep(s, ',');
    lemma_split_all_nonempty(s, ',');
    if p.last().len() == 0 {
        if p.len() == 1 {
            assert(pieces =~= Seq::<Seq<char>>::empty());
            assert(s =~= Seq::<char>::empty());
        } else {
            assert(p.drop_last() == pieces);
            assert(join(p, ',') == join(pieces, ',').push(',') + p.last());
            assert(p.last() =~= Seq::<char>::empty());
            assert(s =~= join(pieces, ',') + seq![',']);
        }
    } else {
        assert(s =~= join(pieces, ',') + Seq::<char>::empty());
    }
}

/// The entries `pieces` of the comma terminated list `s`: the credit column of `s` holds one
/// value per entry, in order, each the bytes of the trimmed entry; the entries hold no comma,
/// and joined with commas they give `s` back, but for a comma that ends it.
pub open spec fn credit_entries(s: Seq<char>, pieces: Seq<Seq<char>>) -> bool {
    &&& credit_column(s).len() == pieces.len()
    &&& forall|i: int|
        0 <= i < pieces.len() ==> credit_column(s)[i] == SpecValue::String(
            encode_utf8(trim(#[trigger] pieces[i])),
        ) && !pieces[i].contains(',')
    &&& s == join(pieces, ',') + final_comma(s)
}

/// A comma terminated list has entries, as [`credit_entries`] says, that the credit column
/// holds one value each of.
pub proof fn law_credit_entries(s: Seq<char>)
    ensures
        exists|pieces: Seq<Seq<char>>| #[trigger] credit_entries(s, pieces),
{
    let p = split_all(s, ',');
    let pieces = split_terminator(s, ',');
    lemma_split_pieces_no_sep(s, ',');
    lemma_split_all_nonempty(s, ',');
    lemma_terminator_join(s);
    assert forall|i: int| 0 <= i < pieces.len() implies credit_column(s)[i] == SpecValue::String(
        encode_utf8(trim(#[trigger] pieces[i])),
    ) && !pieces[i].contains(',') by {
        assert(pieces[i] == p[i]);
    }
    assert(credit_entries(s, pieces));
}


proof fn lemma_trim_start_exact(s: Seq<char>) -> (k: int)
    ensures
        0 <= k <= s.len(),
        trim_start(s) == s.subrange(k, s.len() as int),
        forall|i: int| 0 <= i < k ==> is_whitespace(#[trigger] s[i]),
        k < s.len() ==> !is_whitespace(s[k]),
    decreases s.len(),
{
    if s.len() > 0 && is_whitespace(s[0]) {
        let k1 = lemma_trim_start_exact(s.drop_first());
        assert(s.drop_first().subrange(k1, s.drop_first().len() as int) =~= s.subrange(
            k1 + 1,
            s.len() as int,
        ));
        assert forall|i: int| 0 <= i < k1 + 1 implies is_whitespace(#[trigger] s[i]) by {
            if i > 0 {
                assert(s[i] == s.drop_first()[i - 1]);
            }
        }
        k1 + 1
    } else {
        assert(s.subrange(0, s.len() as int) =~= s);
        0
    }
}

proof fn lemma_trim_end_exact(s: Seq<char>) -> (k: int)
    ensures
        0 <= k <= s.len(),
        trim_end(s) == s.subrange(0, k),
        forall|i: int| k <= i < s.len() ==> is_whitespace(#[trigger] s[i]),
        k > 0 ==> !is_whitespace(s[k - 1]),
    decreases s.len(),
{
    if s.len() > 0 && is_whitespace(s.last()) {
        let k1 = lemma_trim_end_exact(s.drop_last());
        assert(s.drop_last().subrange(0, k1) =~= s.subrange(0, k1));
        assert forall|i: int| k1 <= i < s.len() implies is_whitespace(#[trigger] s[i]) by {
            if i < s.len() - 1 {
                assert(s[i] == s.drop_last()[i]);
            }
        }
        k1
    } else {
        assert(s.subrange(0, s.len() as int) =~= s);
        s.len() as int
    }
}

/// Trimming removes exactly the white space at both ends: the trimmed text is the part of the
/// text between a leading and a trailing run of white space, and starts and ends with a
/// character that is not white space, where it is not empty.
pub proof fn law_trim_exact(s: Seq<char>)
    ensures
        exists|a: int, b: int|
            #![trigger s.subrange(a, b)]
            {
                &&& 0 <= a <= b <= s.len()
                &&& trim(s) == s.subrange(a, b)
                &&& forall|i: int| 0 <= i < a ==> is_whitespace(#[trigger] s[i])
                &&& forall|i: int| b <= i < s.len() ==> is_whitespace(#[trigger] s[i])
                &&& a < b ==> !is_whitespace(s[a]) && !is_whitespace(s[b - 1])
            },
{
    let a = lemma_trim_start_exact(s);
    let t = trim_start(s);
    let k = lemma_trim_end_exact(t);
    let b = a + k;
    assert(t.subrange(0, k) =~= s.subrange(a, b));
    assert forall|i: int| b <= i < s.len() implies is_whitespace(#[trigger] s[i]) by {
        assert(s[i] == t[i - a]);
    }
    if a < b {
        assert(s[a] == t[0]);
        assert(s[b - 1] == t[k - 1]);
        if k == t.len() {
            assert(!is_whitespace(s[a]));
        }
    }
}

} // verus!
