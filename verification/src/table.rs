//! Tables of text: a list of column names, and rows of fields that stand in
//! the order of the columns.
use vstd::prelude::*;
use vstd::string::StringExecFns;

verus! {

/// The first position in `headers` of the column named `name`.
pub fn index_of(headers: &[String], name: &String) -> (r: Option<usize>)
    ensures
        match r {
            Some(k) => headers.deep_view().index_of_first(name@) == Some(k as int),
            None => headers.deep_view().index_of_first(name@) is None,
        },
{
    let ghost names = headers.deep_view();
    let len: usize = headers.len();
    let mut k: usize = 0;
    while k < len
        invariant
            k <= len == headers@.len(),
            names == headers.deep_view(),
            forall|j: int| 0 <= j < k ==> names[j] != name@,
        decreases len - k,
    {
        if headers[k] == *name {
            proof {
                assert(names[k as int] == name@);
                names.index_of_first_ensures(name@);
            }
            return Some(k);
        }
        k = k + 1;
    }
    proof {
        names.index_of_first_ensures(name@);
    }
    None
}

/// The texts of `fields` in one line, with `sep` between each two.
pub open spec fn joined(fields: Seq<Seq<char>>, sep: Seq<char>) -> Seq<char>
    decreases fields.len(),
{
    if fields.len() == 0 {
        Seq::empty()
    } else if fields.len() == 1 {
        fields[0]
    } else {
        joined(fields.drop_last(), sep) + sep + fields.last()
    }
}

/// Writes the fields of a row in one line, with `sep` between each two.
pub fn join(fields: &[String], sep: &str) -> (r: String)
    ensures
        r@ == joined(fields.deep_view(), sep@),
{
    let ghost texts = fields.deep_view();
    let len: usize = fields.len();
    let mut out: String = String::new();
    let mut i: usize = 0;
    while i < len
        invariant
            i <= len == fields@.len(),
            texts == fields.deep_view(),
            out@ == joined(texts.take(i as int), sep@),
        decreases len - i,
    {
        if i > 0 {
            out.append(sep);
        }
        out.append(fields[i].as_str());
        proof {
            let now = texts.take(i + 1);
            assert(now.drop_last() =~= texts.take(i as int));
            assert(now.last() == fields@[i as int]@);
            if i == 0 {
                assert(out@ =~= now[0]);
            }
        }
        i = i + 1;
    }
    assert(texts.take(len as int) =~= texts);
    out
}

} // verus!
