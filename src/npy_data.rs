//! What a file header says about the data that follows it: the dtype of
//! each record and how many records there are.
use vstd::prelude::*;
use crate::dtype::{DType, DTypeModel, DescrError, dtype_of_descr};
use crate::header::{
    HeaderError, Value, ValueModel, entry_models, lemma_list_model, lemma_map_model,
};

verus! {

broadcast use vstd::std_specs::vec::group_vec_axioms;

/// Why a file's header does not describe its data.
#[derive(Debug, Copy, Clone, PartialEq, Eq, Structural)]
pub enum NpyError {
    /// The header could not be read.
    Header(HeaderError),
    /// The header is not a map.
    NotAMap,
    /// `shape` is missing or is not a tuple of one integer.
    BadShape,
    /// `descr` is missing.
    MissingDescr,
    /// `descr` does not describe a dtype.
    BadDescr(DescrError),
}

/// The value of the last entry under `key`, as a map keeps the last of keys
/// given twice.
pub open spec fn lookup(entries: Seq<(Seq<char>, ValueModel)>, key: Seq<char>) -> Option<ValueModel>
    decreases entries.len(),
{
    if entries.len() == 0 {
        None
    } else if entries.last().0 == key {
        Some(entries.last().1)
    } else {
        lookup(entries.drop_last(), key)
    }
}

/// The record count that a `shape` entry gives: a tuple of one integer.
pub open spec fn count_of_shape(v: Option<ValueModel>) -> Option<i64> {
    match v {
        Some(ValueModel::List(items)) => if items.len() == 1 {
            match items[0] {
                ValueModel::Integer(n) => Some(n),
                _ => None,
            }
        } else {
            None
        },
        _ => None,
    }
}

/// What a header value says of the data: the dtype and the record count.
pub open spec fn header_info_spec(v: ValueModel) -> Result<(DTypeModel, i64), NpyError> {
    match v {
        ValueModel::Dict(entries) => match count_of_shape(lookup(entries, "shape"@)) {
            None => Err(NpyError::BadShape),
            Some(n) => match lookup(entries, "descr"@) {
                None => Err(NpyError::MissingDescr),
                Some(d) => match dtype_of_descr(d) {
                    Ok(m) => Ok((m, n)),
                    Err(e) => Err(NpyError::BadDescr(e)),
                },
            },
        },
        _ => Err(NpyError::NotAMap),
    }
}

fn find_entry(entries: &Vec<(String, Value)>, key: &str) -> (r: Option<usize>)
    ensures
        match r {
            Some(i) => i < entries@.len() && lookup(entry_models(entries@), key@) == Some(
                entries@[i as int].1.model(),
            ),
            None => lookup(entry_models(entries@), key@) is None,
        },
{
    let ghost es = entry_models(entries@);
    let mut k = entries.len();
    let key_string = String::from_str(key);
    proof {
        assert(es.subrange(0, k as int) =~= es);
    }
    while k > 0
        invariant
            k <= entries@.len(),
            es == entry_models(entries@),
            key_string@ == key@,
            lookup(es.subrange(0, k as int), key@) == lookup(es, key@),
        decreases k,
    {
        let ghost prefix = es.subrange(0, k as int);
        proof {
            assert(prefix.drop_last() =~= es.subrange(0, k - 1));
            assert(prefix.last() == es[k - 1]);
        }
        if entries[k - 1].0 == key_string {
            return Some(k - 1);
        }
        k = k - 1;
    }
    proof {
        assert(es.subrange(0, 0) =~= Seq::<(Seq<char>, ValueModel)>::empty());
    }
    None
}

/// Reads the dtype and the record count from a header value.
pub fn header_info(header: Value) -> (r: Result<(DType, i64), NpyError>)
    ensures
        match r {
            Ok((d, n)) => header_info_spec(header.model()) == Ok::<(DTypeModel, i64), NpyError>(
                (d.model(), n),
            ),
            Err(e) => header_info_spec(header.model()) == Err::<(DTypeModel, i64), NpyError>(e),
        },
{
    let entries = match header {
        Value::Dict(entries) => entries,
        _ => return Err(NpyError::NotAMap),
    };
    proof {
        lemma_map_model(entries);
        reveal_strlit("shape");
        reveal_strlit("descr");
    }
    let shape = match find_entry(&entries, "shape") {
        Some(i) => Some(&entries[i].1),
        None => None,
    };
    let count = match shape {
        Some(Value::List(l)) => {
            proof {
                lemma_list_model(*l);
            }
            if l.len() == 1 {
                match &l[0] {
                    Value::Integer(n) => Some(*n),
                    _ => None,
                }
            } else {
                None
            }
        },
        _ => None,
    };
    let n = match count {
        None => return Err(NpyError::BadShape),
        Some(n) => n,
    };
    let mut entries = entries;
    let descr = match find_entry(&entries, "descr") {
        None => return Err(NpyError::MissingDescr),
        Some(i) => entries.remove(i).1,
    };
    match DType::from_descr(descr) {
        Ok(d) => Ok((d, n)),
        Err(e) => Err(NpyError::BadDescr(e)),
    }
}

} // verus!
