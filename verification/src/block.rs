use vstd::prelude::*;

verus! {

/// The type of the values of a column.
#[derive(PartialEq, Eq, Structural, Clone, Copy, Debug)]
pub enum DataType {
    Boolean,
    Int64,
    UInt64,
    /// Byte strings.
    String,
}

/// A named, typed field of a schema.
#[derive(Debug, PartialEq, Eq)]
pub struct DataField {
    pub name: String,
    pub data_type: DataType,
}

pub struct SpecField {
    pub name: Seq<char>,
    pub data_type: DataType,
}

impl View for DataField {
    type V = SpecField;

    open spec fn view(&self) -> SpecField {
        SpecField { name: self.name@, data_type: self.data_type }
    }
}

/// The fields of a block, in column order.
#[derive(Debug, PartialEq, Eq)]
pub struct DataSchema {
    pub fields: Vec<DataField>,
}

impl View for DataSchema {
    type V = Seq<SpecField>;

    open spec fn view(&self) -> Seq<SpecField> {
        self.fields@.map_values(|f: DataField| f@)
    }
}

/// A value of a column.
#[derive(Debug, PartialEq, Eq)]
pub enum DataValue {
    Null,
    Boolean(bool),
    Int64(i64),
    UInt64(u64),
    String(Vec<u8>),
}

pub enum SpecValue {
    Null,
    Boolean(bool),
    Int64(i64),
    UInt64(u64),
    String(Seq<u8>),
}

impl View for DataValue {
    type V = SpecValue;

    open spec fn view(&self) -> SpecValue {
        match self {
            DataValue::Null => SpecValue::Null,
            DataValue::Boolean(b) => SpecValue::Boolean(*b),
            DataValue::Int64(i) => SpecValue::Int64(*i),
            DataValue::UInt64(u) => SpecValue::UInt64(*u),
            DataValue::String(s) => SpecValue::String(s@),
        }
    }
}

/// The values of a column, in row order.
pub open spec fn view_column(c: Vec<DataValue>) -> Seq<SpecValue> {
    c@.map_values(|v: DataValue| v@)
}

/// What can go wrong on blocks.
#[derive(Debug, PartialEq, Eq)]
pub enum ErrorCode {
    /// No field of the schema has the name.
    BadArguments(String),
    /// There is no block to concatenate.
    EmptyData,
    /// Blocks to concatenate have different schemas.
    DataStructMissMatch,
}

pub enum SpecError {
    BadArguments(Seq<char>),
    EmptyData,
    DataStructMissMatch,
}

impl View for ErrorCode {
    type V = SpecError;

    open spec fn view(&self) -> SpecError {
        match self {
            ErrorCode::BadArguments(s) => SpecError::BadArguments(s@),
            ErrorCode::EmptyData => SpecError::EmptyData,
            ErrorCode::DataStructMissMatch => SpecError::DataStructMissMatch,
        }
    }
}

/// A block of columns with the schema that describes them: one column per field.
#[derive(Debug, PartialEq, Eq)]
pub struct DataBlock {
    schema: DataSchema,
    columns: Vec<Vec<DataValue>>,
}

pub struct SpecBlock {
    pub schema: Seq<SpecField>,
    pub columns: Seq<Seq<SpecValue>>,
}

impl DataBlock {
    #[verifier::type_invariant]
    spec fn one_column_per_field(&self) -> bool {
        self.columns@.len() == self.schema.fields@.len()
    }
}

impl View for DataBlock {
    type V = SpecBlock;

    closed spec fn view(&self) -> SpecBlock {
        SpecBlock {
            schema: self.schema@,
            columns: self.columns@.map_values(|c: Vec<DataValue>| view_column(c)),
        }
    }
}

/// The index of the first field named `name`, if there is one.
pub open spec fn field_index(fields: Seq<SpecField>, name: Seq<char>) -> Option<int>
    decreases fields.len(),
{
    if fields.len() == 0 {
        None
    } else {
        match field_index(fields.drop_last(), name) {
            Some(i) => Some(i),
            None => if fields.last().name == name {
                Some(fields.len() - 1)
            } else {
                None
            },
        }
    }
}

/// The values of column `i` of each block of `blocks`, one block after the other.
pub open spec fn concat_column(blocks: Seq<SpecBlock>, i: int) -> Seq<SpecValue>
    decreases blocks.len(),
{
    if blocks.len() == 0 {
        Seq::empty()
    } else {
        concat_column(blocks.drop_last(), i) + blocks.last().columns[i]
    }
}

/// What concatenating the rows of `blocks` gives.
pub open spec fn spec_concat_blocks(blocks: Seq<SpecBlock>) -> Result<SpecBlock, SpecError> {
    if blocks.len() == 0 {
        Err(SpecError::EmptyData)
    } else if exists|j: int| 0 <= j < blocks.len() && #[trigger] blocks[j].schema != blocks[0].schema {
        Err(SpecError::DataStructMissMatch)
    } else {
        Ok(
            SpecBlock {
                schema: blocks[0].schema,
                columns: Seq::new(blocks[0].schema.len(), |i: int| concat_column(blocks, i)),
            },
        )
    }
}

proof fn lemma_field_index(fields: Seq<SpecField>, name: Seq<char>)
    ensures
        match field_index(fields, name) {
            Some(i) => 0 <= i < fields.len() && fields[i].name == name && forall|j: int|
                0 <= j < i ==> fields[j].name != name,
            None => forall|j: int| 0 <= j < fields.len() ==> fields[j].name != name,
        },
    decreases fields.len(),
{
    if fields.len() > 0 {
        lemma_field_index(fields.drop_last(), name);
        match field_index(fields.drop_last(), name) {
            Some(i) => {
                assert forall|j: int| 0 <= j < i implies fields[j].name != name by {
                    assert(fields[j] == fields.drop_last()[j]);
                }
            },
            None => {
                assert forall|j: int| 0 <= j < fields.len() - 1 implies fields[j].name != name by {
                    assert(fields[j] == fields.drop_last()[j]);
                }
            },
        }
    }
}

proof fn lemma_field_index_prefix(s: Seq<SpecField>, name: Seq<char>, m: int)
    requires
        0 <= m <= s.len(),
        field_index(s.take(m), name) is Some,
    ensures
        field_index(s, name) == field_index(s.take(m), name),
    decreases s.len(),
{
    if m == s.len() {
        assert(s.take(m) =~= s);
    } else {
        assert(s.drop_last().take(m) =~= s.take(m));
        lemma_field_index_prefix(s.drop_last(), name, m);
    }
}

/// A copy of a value.
pub fn copy_value(v: &DataValue) -> (r: DataValue)
    ensures
        r@ == v@,
{
    match v {
        DataValue::Null => DataValue::Null,
        DataValue::Boolean(b) => DataValue::Boolean(*b),
        DataValue::Int64(i) => DataValue::Int64(*i),
        DataValue::UInt64(u) => DataValue::UInt64(*u),
        DataValue::String(s) => DataValue::String(vstd::slice::slice_to_vec(s.as_slice())),
    }
}

/// A copy of a column.
pub fn copy_column(c: &Vec<DataValue>) -> (r: Vec<DataValue>)
    ensures
        view_column(r) == view_column(*c),
{
    let mut r: Vec<DataValue> = Vec::new();
    for i in 0..c.len()
        invariant
            r@.len() == i,
            forall|k: int| 0 <= k < i ==> r@[k]@ == c@[k]@,
    {
        r.push(copy_value(&c[i]));
    }
    assert(view_column(r) =~= view_column(*c));
    r
}

/// A copy of a field.
pub fn copy_field(f: &DataField) -> (r: DataField)
    ensures
        r@ == f@,
{
    DataField { name: f.name.clone(), data_type: f.data_type }
}

impl DataSchema {
    /// A copy of the schema.
    pub fn copy(&self) -> (r: DataSchema)
        ensures
            r@ == self@,
            r.fields@.len() == self.fields@.len(),
    {
        let mut fields: Vec<DataField> = Vec::new();
        for i in 0..self.fields.len()
            invariant
                fields@.len() == i,
                forall|k: int| 0 <= k < i ==> fields@[k]@ == self.fields@[k]@,
        {
            fields.push(copy_field(&self.fields[i]));
        }
        assert(fields@.map_values(|f: DataField| f@) =~= self@);
        DataSchema { fields }
    }

    /// The index of the first field named `name`; an error naming it where no field has it.
    pub fn index_of(&self, name: &String) -> (r: Result<usize, ErrorCode>)
        ensures
            match r {
                Ok(i) => field_index(self@, name@) == Some(i as int),
                Err(e) => field_index(self@, name@) is None && e@ == SpecError::BadArguments(name@),
            },
    {
        let n = self.fields.len();
        for i in 0..n
            invariant
                n == self.fields@.len(),
                field_index(self@.take(i as int), name@) is None,
        {
            assert(self@.take(i + 1).drop_last() =~= self@.take(i as int));
            assert(self@.take(i + 1).last() == self@[i as int]);
            if self.fields[i].name == *name {
                proof {
                    lemma_field_index_prefix(self@, name@, i + 1);
                }
                return Ok(i);
            }
        }
        assert(self@.take(n as int) =~= self@);
        Err(ErrorCode::BadArguments(name.clone()))
    }

    /// Whether the two schemas have the same fields.
    pub fn equals(&self, other: &DataSchema) -> (b: bool)
        ensures
            b == (self@ == other@),
    {
        if self.fields.len() != other.fields.len() {
            assert(self@.len() != other@.len());
            return false;
        }
        for i in 0..self.fields.len()
            invariant
                self.fields@.len() == other.fields@.len(),
                forall|k: int| 0 <= k < i ==> self@[k] == other@[k],
        {
            if !(self.fields[i].name == other.fields[i].name) || self.fields[i].data_type
                != other.fields[i].data_type {
                assert(self@[i as int] != other@[i as int]);
                return false;
            }
        }
        assert(self@ =~= other@);
        true
    }
}

impl DataBlock {
    /// A block of the columns `columns` described by `schema`.
    pub fn create(schema: DataSchema, columns: Vec<Vec<DataValue>>) -> (b: DataBlock)
        requires
            columns@.len() == schema.fields@.len(),
        ensures
            b@.schema == schema@,
            b@.columns == columns@.map_values(|c: Vec<DataValue>| view_column(c)),
    {
        DataBlock { schema, columns }
    }

    /// The schema of the block.
    pub fn schema(&self) -> (s: &DataSchema)
        ensures
            s@ == self@.schema,
    {
        &self.schema
    }

    /// The number of columns, which is the number of fields.
    pub fn num_columns(&self) -> (n: usize)
        ensures
            n == self@.columns.len(),
            n == self@.schema.len(),
    {
        proof {
            use_type_invariant(self);
        }
        self.columns.len()
    }

    /// The column `i`.
    pub fn column(&self, i: usize) -> (c: &Vec<DataValue>)
        requires
            i < self@.columns.len(),
        ensures
            view_column(*c) == self@.columns[i as int],
    {
        &self.columns[i]
    }

    /// The column of the first field named `name`; an error naming it where no field has it.
    pub fn try_column_by_name(&self, name: &String) -> (r: Result<&Vec<DataValue>, ErrorCode>)
        ensures
            match r {
                Ok(c) => field_index(self@.schema, name@) matches Some(i) && view_column(*c)
                    == self@.columns[i],
                Err(e) => field_index(self@.schema, name@) is None && e@ == SpecError::BadArguments(
                    name@,
                ),
            },
    {
        proof {
            use_type_invariant(self);
            lemma_field_index(self@.schema, name@);
        }
        let i = self.schema.index_of(name)?;
        Ok(&self.columns[i])
    }

    /// The rows of all `blocks`, one block after the other, under the schema of the first.
    ///
    /// An error where there is no block, or where the blocks' schemas differ.
    pub fn concat_blocks(blocks: &[DataBlock]) -> (r: Result<DataBlock, ErrorCode>)
        ensures
            match (r, spec_concat_blocks(blocks@.map_values(|b: DataBlock| b@))) {
                (Ok(b), Ok(s)) => b@ == s,
                (Err(e), Err(s)) => e@ == s,
                _ => false,
            },
    {
        let ghost views = blocks@.map_values(|b: DataBlock| b@);
        if blocks.len() == 0 {
            return Err(ErrorCode::EmptyData);
        }
        let first = &blocks[0];
        for j in 0..blocks.len()
            invariant
                views == blocks@.map_values(|b: DataBlock| b@),
                0 < blocks@.len(),
                first == blocks@[0],
                forall|k: int| 0 <= k < j ==> #[trigger] views[k].schema == views[0].schema,
        {
            if !blocks[j].schema.equals(&first.schema) {
                assert(views[j as int].schema != views[0].schema);
                return Err(ErrorCode::DataStructMissMatch);
            }
        }
        let n = first.num_columns();
        let mut columns: Vec<Vec<DataValue>> = Vec::new();
        for i in 0..n
            invariant
                views == blocks@.map_values(|b: DataBlock| b@),
                0 < blocks@.len(),
                first == blocks@[0],
                n == views[0].schema.len(),
                forall|k: int| 0 <= k < blocks@.len() ==> #[trigger] views[k].schema == views[0].schema,
                columns@.len() == i,
                forall|c: int| 0 <= c < i ==> view_column(#[trigger] columns@[c]) == concat_column(views, c),
        {
            let mut column: Vec<DataValue> = Vec::new();
            for j in 0..blocks.len()
                invariant
                    views == blocks@.map_values(|b: DataBlock| b@),
                    0 < blocks@.len(),
                    n == views[0].schema.len(),
                    i < n,
                    forall|k: int| 0 <= k < blocks@.len() ==> #[trigger] views[k].schema == views[0].schema,
                    view_column(column) == concat_column(views.take(j as int), i as int),
            {
                let b = &blocks[j];
                proof {
                    use_type_invariant(b);
                    assert(views.take(j + 1).drop_last() =~= views.take(j as int));
                    assert(views.take(j + 1).last() == views[j as int]);
                    assert(views[j as int] == b@);
                    assert(b@.schema.len() == b.schema.fields@.len());
                }
                let ghost before = view_column(column);
                let src = &b.columns[i];
                assert(b@.columns[i as int] == view_column(*src));
                for k in 0..src.len()
                    invariant
                        view_column(column) == before + view_column(*src).take(k as int),
                {
                    let ghost prev = column@;
                    let v = copy_value(&src[k]);
                    column.push(v);
                    assert(column@ == prev.push(v));
                    assert(column@.map_values(|x: DataValue| x@) =~= prev.map_values(
                        |x: DataValue| x@,
                    ).push(v@));
                    assert(view_column(*src).take(k + 1) =~= view_column(*src).take(k as int).push(
                        view_column(*src)[k as int],
                    ));
                    assert(view_column(column) =~= before + view_column(*src).take(k + 1));
                }
                assert(view_column(*src).take(src@.len() as int) =~= view_column(*src));
            }
            assert(views.take(blocks@.len() as int) =~= views);
            columns.push(column);
        }
        let r = DataBlock { schema: first.schema.copy(), columns };
        assert(r@.columns =~= Seq::new(views[0].schema.len(), |i: int| concat_column(views, i)));
        Ok(r)
    }
}


// ---------------------------------------------------------------------------
// Laws
// ---------------------------------------------------------------------------
/// Two blocks of one schema concatenate to a block of that schema whose every column holds
/// the first block's values, then the second's.
pub proof fn law_concat_two(a: SpecBlock, b: SpecBlock)
    requires
        a.schema == b.schema,
    ensures
        spec_concat_blocks(seq![a, b]) matches Ok(c) && c.schema == a.schema && c.columns.len()
            == a.schema.len() && forall|i: int|
            0 <= i < a.schema.len() ==> #[trigger] c.columns[i] == a.columns[i] + b.columns[i],
{
    let blocks = seq![a, b];
    assert forall|j: int| 0 <= j < blocks.len() implies #[trigger] blocks[j].schema
        == blocks[0].schema by {
        if j == 1 {
            assert(blocks[1] == b);
        }
    }
    assert(blocks.drop_last() =~= seq![a]);
    assert(seq![a].drop_last() =~= Seq::<SpecBlock>::empty());
    assert forall|i: int| 0 <= i < a.schema.len() implies #[trigger] concat_column(blocks, i)
        == a.columns[i] + b.columns[i] by {
        assert(concat_column(seq![a], i) == concat_column(Seq::<SpecBlock>::empty(), i)
            + a.columns[i]);
        assert(Seq::<SpecValue>::empty() + a.columns[i] =~= a.columns[i]);
    }
}

/// Concatenating one block with one column per field gives the block itself.
pub proof fn law_concat_one(a: SpecBlock)
    requires
        a.columns.len() == a.schema.len(),
    ensures
        spec_concat_blocks(seq![a]) == Ok::<SpecBlock, SpecError>(a),
{
    let blocks = seq![a];
    assert(blocks.drop_last() =~= Seq::<SpecBlock>::empty());
    assert forall|i: int| 0 <= i < a.schema.len() implies #[trigger] concat_column(blocks, i)
        == a.columns[i] by {
        assert(blocks.last() == a);
        assert(concat_column(blocks, i) == concat_column(Seq::<SpecBlock>::empty(), i)
            + a.columns[i]);
        assert(Seq::<SpecValue>::empty() + a.columns[i] =~= a.columns[i]);
    }
    if let Ok(c) = spec_concat_blocks(blocks) {
        assert(c.columns =~= a.columns);
    }
}


/// A name's field index is the first field with that name; there is none where no field has
/// it.
pub proof fn law_first_field(fields: Seq<SpecField>, name: Seq<char>)
    ensures
        match field_index(fields, name) {
            Some(i) => 0 <= i < fields.len() && fields[i].name == name && forall|j: int|
                0 <= j < i ==> fields[j].name != name,
            None => forall|j: int| 0 <= j < fields.len() ==> fields[j].name != name,
        },
{
    lemma_field_index(fields, name);
}

} // verus!
