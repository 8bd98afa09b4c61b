//! How an object path in the blob store names a dataset and a partition.
use vstd::prelude::*;
use vstd::string::*;
use crate::error::Error;
use crate::text::{owned, str_eq};

verus! {

/// The reserved file name of a dataset descriptor.
pub const FILENAME_DD_JSON: &'static str = "dd.json";

/// The characters before the first `/`.
pub open spec fn leading_component(p: Seq<char>) -> Seq<char>
    decreases p.len(),
{
    if p.len() == 0 || p[0] == '/' {
        Seq::empty()
    } else {
        seq![p[0]] + leading_component(p.drop_first())
    }
}

/// The partition that a path names: what follows `<dataset>/`, unless the path is the dataset
/// itself or its descriptor.
pub open spec fn partition_part(p: Seq<char>) -> Option<Seq<char>> {
    let d = leading_component(p);
    if p.len() <= d.len() + 1 {
        None
    } else if p.subrange(d.len() + 1 as int, p.len() as int) == FILENAME_DD_JSON@ {
        None
    } else {
        Some(p.subrange(d.len() + 1 as int, p.len() as int))
    }
}

/// The characters of an optional string.
pub open spec fn opt_view(o: Option<String>) -> Option<Seq<char>> {
    match o {
        None => None,
        Some(s) => Some(s@),
    }
}

/// `i` is the position of the first `/` in `p`, or its length if there is none.
pub open spec fn component_end(p: Seq<char>, i: int) -> bool {
    &&& 0 <= i <= p.len()
    &&& forall|k: int| 0 <= k < i ==> p[k] != '/'
    &&& (i == p.len() || p[i] == '/')
}

proof fn lemma_leading_component(p: Seq<char>, i: int)
    requires
        component_end(p, i),
    ensures
        leading_component(p) == p.subrange(0, i),
    decreases p.len(),
{
    if p.len() == 0 || p[0] == '/' {
        assert(i == 0);
        assert(p.subrange(0, 0) =~= Seq::<char>::empty());
    } else {
        let q = p.drop_first();
        assert(component_end(q, i - 1)) by {
            assert forall|k: int| 0 <= k < i - 1 implies q[k] != '/' by {
                assert(q[k] == p[k + 1]);
            }
        }
        lemma_leading_component(q, i - 1);
        assert(seq![p[0]] + q.subrange(0, i - 1) =~= p.subrange(0, i));
    }
}

/// The position of the first `/` in `path`, or its length.
fn component_end_of(path: &str) -> (r: usize)
    ensures
        component_end(path@, r as int),
        leading_component(path@) == path@.subrange(0, r as int),
{
    let n = path.unicode_len();
    let mut i: usize = 0;
    while i < n
        invariant
            n == path@.len(),
            i <= n,
            forall|k: int| 0 <= k < i ==> path@[k] != '/',
        decreases n - i,
    {
        if path.get_char(i) == '/' {
            proof {
                lemma_leading_component(path@, i as int);
            }
            return i;
        }
        i = i + 1;
    }
    proof {
        lemma_leading_component(path@, n as int);
    }
    n
}

/// The dataset that a path belongs to: its first component. A path with no first component
/// (empty, or starting with `/`) is refused.
pub fn dataset_name(path: &str) -> (r: Result<String, Error>)
    ensures
        leading_component(path@).len() > 0 ==> (r matches Ok(s) && s@ == leading_component(path@)),
        leading_component(path@).len() == 0 ==> r matches Err(Error::InputValidation(_)),
{
    let i = component_end_of(path);
    if i == 0 {
        Err(Error::InputValidation(owned("bad input from pubsub, path contains no components")))
    } else {
        Ok(owned(path.substring_char(0, i)))
    }
}

/// The partition that a path names, or `None` where it names the dataset or its descriptor.
/// A path with no first component is refused.
pub fn partition_name(path: &str) -> (r: Result<Option<String>, Error>)
    ensures
        leading_component(path@).len() == 0 ==> r matches Err(Error::InputValidation(_)),
        leading_component(path@).len() > 0 ==> (r matches Ok(o) && opt_view(o) == partition_part(path@)),
{
    let i = component_end_of(path);
    if i == 0 {
        return Err(
            Error::InputValidation(owned("bad input from pubsub, path contains no components")),
        );
    }
    let n = path.unicode_len();
    if n - i <= 1 {
        return Ok(None);
    }
    let rest = path.substring_char(i + 1, n);
    if str_eq(rest, FILENAME_DD_JSON) {
        Ok(None)
    } else {
        Ok(Some(owned(rest)))
    }
}

} // verus!
