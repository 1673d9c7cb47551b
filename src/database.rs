use vstd::prelude::*;
use crate::index::Index;
use crate::routes::ResponseError;

verus! {

/// An index under its unique name.
#[derive(Debug)]
pub struct NamedIndex {
    pub name: String,
    pub index: Index,
}

/// The indexes of a server, each under its own name.
#[derive(Debug)]
pub struct Database {
    pub indexes: Vec<NamedIndex>,
}

/// The position of the index called `name`, or -1 where there is none.
pub open spec fn name_position(ixs: Seq<NamedIndex>, name: Seq<char>) -> int
    decreases ixs.len(),
{
    if ixs.len() == 0 {
        -1
    } else if ixs.last().name@ == name {
        ixs.len() - 1
    } else {
        name_position(ixs.drop_last(), name)
    }
}

/// `name_position` is -1 exactly where no index has the name.
proof fn lemma_name_position(ixs: Seq<NamedIndex>, name: Seq<char>)
    ensures
        -1 <= name_position(ixs, name) < ixs.len(),
        name_position(ixs, name) >= 0 ==> ixs[name_position(ixs, name)].name@ == name,
        name_position(ixs, name) == -1 ==> forall|i: int|
            0 <= i < ixs.len() ==> (#[trigger] ixs[i]).name@ != name,
    decreases ixs.len(),
{
    if ixs.len() > 0 {
        lemma_name_position(ixs.drop_last(), name);
        if name_position(ixs, name) == -1 {
            assert forall|i: int| 0 <= i < ixs.len() implies (#[trigger] ixs[i]).name@ != name by {
                if i < ixs.len() - 1 {
                    assert(ixs.drop_last()[i] == ixs[i]);
                }
            }
        }
    }
}

impl Database {
    pub open spec fn wf(&self) -> bool {
        &&& forall|i: int, j: int|
            0 <= i < j < self.indexes@.len() ==> (#[trigger] self.indexes@[i]).name@ != (
            #[trigger] self.indexes@[j]).name@
        &&& forall|i: int| 0 <= i < self.indexes@.len() ==> (#[trigger] self.indexes@[i]).index.wf()
    }

    /// A database without any index.
    pub fn new() -> (r: Database)
        ensures
            r.wf(),
            r.indexes@.len() == 0,
    {
        Database { indexes: Vec::new() }
    }

    /// Finds the index called `name`; an unknown name is not found.
    pub fn index_position(&self, name: &String) -> (r: Result<usize, ResponseError>)
        ensures
            name_position(self.indexes@, name@) >= 0 ==> r == Ok::<usize, ResponseError>(
                name_position(self.indexes@, name@) as usize,
            ),
            name_position(self.indexes@, name@) == -1 ==> r == Err::<usize, ResponseError>(
                ResponseError::IndexNotFound(*name),
            ),
    {
        let ghost v = self.indexes@;
        let mut i: usize = self.indexes.len();
        assert(v.subrange(0, i as int) =~= v);
        while i > 0
            invariant
                i <= v.len(),
                v == self.indexes@,
                name_position(v, name@) == name_position(v.subrange(0, i as int), name@),
            decreases i,
        {
            assert(v.subrange(0, i as int).drop_last() =~= v.subrange(0, i - 1));
            if self.indexes[i - 1].name == *name {
                return Ok(i - 1);
            }
            i = i - 1;
        }
        Err(ResponseError::IndexNotFound(name.clone()))
    }

    /// Creates an empty index called `name` unless one exists; says whether
    /// it did.
    pub fn create_index(&mut self, name: String) -> (r: bool)
        requires
            old(self).wf(),
        ensures
            final(self).wf(),
            r == (name_position(old(self).indexes@, name@) == -1),
            !r ==> *final(self) == *old(self),
            r ==> final(self).indexes@.len() == old(self).indexes@.len() + 1 && final(self).indexes@.drop_last() == old(self).indexes@ && final(self).indexes@.last().name
                == name && final(self).indexes@.last().index.docs().len() == 0
                && final(self).indexes@.last().index.statuses@.len() == 0,
    {
        proof {
            lemma_name_position(self.indexes@, name@);
        }
        match self.index_position(&name) {
            Ok(_) => false,
            Err(_) => {
                let ghost n = name;
                self.indexes.push(NamedIndex { name, index: Index::new() });
                assert(self.indexes@.drop_last() =~= old(self).indexes@);
                assert forall|i: int, j: int|
                    0 <= i < j < self.indexes@.len() implies (#[trigger] self.indexes@[i]).name@ != (
                    #[trigger] self.indexes@[j]).name@ by {
                    if j == self.indexes@.len() - 1 {
                        assert(old(self).indexes@[i] == self.indexes@[i]);
                    } else {
                        assert(old(self).indexes@[i] == self.indexes@[i]);
                        assert(old(self).indexes@[j] == self.indexes@[j]);
                    }
                }
                true
            },
        }
    }
}

} // verus!
