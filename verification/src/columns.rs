use vstd::prelude::*;
use crate::Occurrence;

verus! {

/// The typed cells of one column of the ingested table. Floating-point cells
/// are carried as IEEE-754 bit patterns, which the pipeline never interprets;
/// columns of any other type are present by name only, since the materializer
/// reads nothing from them.
pub enum ColumnValues {
    Float64(Vec<Option<u64>>),
    Int64(Vec<Option<i64>>),
    Other,
}

/// One named column of the ingested table.
pub struct Column {
    pub name: String,
    pub values: ColumnValues,
}

pub open spec fn lat_name() -> Seq<char> {
    "decimalLatitude"@
}

pub open spec fn lon_name() -> Seq<char> {
    "decimalLongitude"@
}

pub open spec fn year_name() -> Seq<char> {
    "year"@
}

pub open spec fn month_name() -> Seq<char> {
    "month"@
}

pub open spec fn day_name() -> Seq<char> {
    "day"@
}

/// The two geolocation columns: a missing cell in one of these invalidates
/// the whole row.
pub open spec fn is_coord_name(n: Seq<char>) -> bool {
    n == lat_name() || n == lon_name()
}

/// The three date-part columns: a missing cell in one of these is repaired
/// with a default, never treated as invalid.
pub open spec fn is_date_name(n: Seq<char>) -> bool {
    n == year_name() || n == month_name() || n == day_name()
}

impl Column {
    pub open spec fn float_cells(self) -> Seq<Option<u64>> {
        match self.values {
            ColumnValues::Float64(v) => v@,
            _ => Seq::empty(),
        }
    }

    pub open spec fn int_cells(self) -> Seq<Option<i64>> {
        match self.values {
            ColumnValues::Int64(v) => v@,
            _ => Seq::empty(),
        }
    }
}

/// A column fits the table: its cells cover every row, and a column bearing a
/// recognized name carries the type the schema promises for it.
pub open spec fn col_ok(c: Column, n: int) -> bool {
    &&& match c.values {
        ColumnValues::Float64(v) => v@.len() == n,
        ColumnValues::Int64(v) => v@.len() == n,
        ColumnValues::Other => true,
    }
    &&& (is_coord_name(c.name@) ==> c.values is Float64)
    &&& (is_date_name(c.name@) ==> c.values is Int64)
}

pub open spec fn cols_ok(cols: Seq<Column>, n: int) -> bool {
    forall|k: int| 0 <= k < cols.len() ==> col_ok(#[trigger] cols[k], n)
}

pub open spec fn or_default(v: Option<i64>, dflt: i64) -> i64 {
    match v {
        Some(x) => x,
        None => dflt,
    }
}

/// The record every row starts from, before any column writes into it: the
/// state a row keeps in every field whose column the input lacks.
pub open spec fn default_occurrence() -> Occurrence {
    Occurrence {
        latitude_bits: 0,
        longitude_bits: 0,
        year: 0,
        month: 0,
        day: 0,
        epoch_time: 0,
    }
}

/// How one column changes row `i` of the record under construction: a
/// coordinate cell writes its bits when present, a date cell writes its value
/// or its default, any other column leaves the record alone.
pub open spec fn apply_col(o: Occurrence, c: Column, i: int) -> Occurrence {
    if c.name@ == lat_name() {
        match c.float_cells()[i] {
            Some(b) => Occurrence { latitude_bits: b, ..o },
            None => o,
        }
    } else if c.name@ == lon_name() {
        match c.float_cells()[i] {
            Some(b) => Occurrence { longitude_bits: b, ..o },
            None => o,
        }
    } else if c.name@ == year_name() {
        Occurrence { year: or_default(c.int_cells()[i], 1970), ..o }
    } else if c.name@ == month_name() {
        Occurrence { month: or_default(c.int_cells()[i], 1), ..o }
    } else if c.name@ == day_name() {
        Occurrence { day: or_default(c.int_cells()[i], 1), ..o }
    } else {
        o
    }
}

/// Whether one column flags row `i` as invalid: only a missing cell of a
/// geolocation column does.
pub open spec fn col_flags(c: Column, i: int) -> bool {
    is_coord_name(c.name@) && 0 <= i < c.float_cells().len() && c.float_cells()[i] is None
}

/// The record row `i` holds after every column has been applied in order.
pub open spec fn built_row(cols: Seq<Column>, i: int) -> Occurrence
    decreases cols.len(),
{
    if cols.len() == 0 {
        default_occurrence()
    } else {
        apply_col(built_row(cols.drop_last(), i), cols.last(), i)
    }
}

/// Whether any column flags row `i` as invalid.
pub open spec fn flagged(cols: Seq<Column>, i: int) -> bool
    decreases cols.len(),
{
    cols.len() > 0 && (col_flags(cols.last(), i) || flagged(cols.drop_last(), i))
}

/// Builds the record of row `i` by walking the columns in order, and reports
/// whether some geolocation column flagged the row.
pub fn build_row(cols: &Vec<Column>, i: usize, n_rows: usize) -> (r: (Occurrence, bool))
    requires
        cols_ok(cols@, n_rows as int),
        i < n_rows,
    ensures
        r.0 == built_row(cols@, i as int),
        r.1 == flagged(cols@, i as int),
{
    let lat = "decimalLatitude".to_owned();
    let lon = "decimalLongitude".to_owned();
    let year = "year".to_owned();
    let month = "month".to_owned();
    let day = "day".to_owned();
    let mut o = Occurrence {
        latitude_bits: 0,
        longitude_bits: 0,
        year: 0,
        month: 0,
        day: 0,
        epoch_time: 0,
    };
    let mut fl = false;
    let mut c: usize = 0;
    while c < cols.len()
        invariant
            cols_ok(cols@, n_rows as int),
            i < n_rows,
            c <= cols.len(),
            lat@ == lat_name(),
            lon@ == lon_name(),
            year@ == year_name(),
            month@ == month_name(),
            day@ == day_name(),
            o == built_row(cols@.take(c as int), i as int),
            fl == flagged(cols@.take(c as int), i as int),
        decreases cols.len() - c,
    {
        proof {
            assert(cols@.take(c as int + 1).drop_last() =~= cols@.take(c as int));
            assert(cols@.take(c as int + 1).last() == cols@[c as int]);
            assert(col_ok(cols@[c as int], n_rows as int));
        }
        let col = &cols[c];
        if col.name == lat {
            if let ColumnValues::Float64(v) = &col.values {
                match v[i] {
                    Some(b) => {
                        o.latitude_bits = b;
                    },
                    None => {
                        fl = true;
                    },
                }
            } else {
                proof {
                    assert(false);
                }
            }
        } else if col.name == lon {
            if let ColumnValues::Float64(v) = &col.values {
                match v[i] {
                    Some(b) => {
                        o.longitude_bits = b;
                    },
                    None => {
                        fl = true;
                    },
                }
            } else {
                proof {
                    assert(false);
                }
            }
        } else if col.name == year {
            if let ColumnValues::Int64(v) = &col.values {
                o.year = match v[i] {
                    Some(x) => x,
                    None => 1970,
                };
            } else {
                proof {
                    assert(false);
                }
            }
        } else if col.name == month {
            if let ColumnValues::Int64(v) = &col.values {
                o.month = match v[i] {
                    Some(x) => x,
                    None => 1,
                };
            } else {
                proof {
                    assert(false);
                }
            }
        } else if col.name == day {
            if let ColumnValues::Int64(v) = &col.values {
                o.day = match v[i] {
                    Some(x) => x,
                    None => 1,
                };
            } else {
                proof {
                    assert(false);
                }
            }
        }
        c += 1;
    }
    proof {
        assert(cols@.take(cols@.len() as int) =~= cols@);
    }
    (o, fl)
}

/// The row materializer: one record per input row, built column by column,
/// together with the list of row indices some geolocation column flagged.
pub fn materialize_rows(cols: &Vec<Column>, n_rows: usize) -> (r: (Vec<Occurrence>, Vec<usize>))
    requires
        cols_ok(cols@, n_rows as int),
    ensures
        r.0@.len() == n_rows as int,
        forall|i: int| 0 <= i < n_rows as int ==> r.0@[i] == built_row(cols@, i),
        forall|i: int|
            0 <= i < n_rows as int ==> (r.1@.contains(i as usize) <==> flagged(cols@, i)),
        forall|k: int| 0 <= k < r.1@.len() ==> (#[trigger] r.1@[k]) < n_rows,
{
    let mut occs: Vec<Occurrence> = Vec::new();
    let mut invalid: Vec<usize> = Vec::new();
    let mut i: usize = 0;
    while i < n_rows
        invariant
            cols_ok(cols@, n_rows as int),
            i <= n_rows,
            occs@.len() == i as int,
            forall|j: int| 0 <= j < i as int ==> occs@[j] == built_row(cols@, j),
            forall|j: int| 0 <= j < i as int ==> (invalid@.contains(j as usize) <==> flagged(cols@, j)),
            forall|k: int| 0 <= k < invalid@.len() ==> (#[trigger] invalid@[k]) < i,
        decreases n_rows - i,
    {
        let (o, fl) = build_row(cols, i, n_rows);
        occs.push(o);
        let ghost inv0 = invalid@;
        if fl {
            invalid.push(i);
        }
        proof {
            assert forall|j: int|
                0 <= j < i as int + 1 implies (invalid@.contains(j as usize) <==> flagged(
                cols@,
                j,
            )) by {
                if fl {
                    assert(invalid@ == inv0.push(i));
                    if j < i as int {
                        if inv0.contains(j as usize) {
                            let k = choose|k: int| 0 <= k < inv0.len() && inv0[k] == j as usize;
                            assert(invalid@[k] == j as usize);
                            assert(invalid@.contains(j as usize));
                        }
                        if invalid@.contains(j as usize) {
                            let k = choose|k: int|
                                0 <= k < invalid@.len() && invalid@[k] == j as usize;
                            assert(k < inv0.len());
                            assert(inv0.contains(j as usize));
                        }
                    } else {
                        assert(invalid@[invalid@.len() - 1] == i);
                        assert(invalid@.contains(i));
                    }
                } else {
                    if j == i as int {
                        if invalid@.contains(i) {
                            let k = choose|k: int| 0 <= k < invalid@.len() && invalid@[k] == i;
                            assert(invalid@[k] < i);
                            assert(false);
                        }
                    }
                }
            }
        }
        i += 1;
    }
    (occs, invalid)
}

} // verus!
