//! Global and local variables.

use vstd::prelude::*;

use crate::identifier::Identifier;
use crate::lazy::values::LazyModel;
use crate::lazy::values::LazyValue;
use crate::table::Table;
use crate::values::Value;
use crate::values::ValueModel;

verus! {

/// Global variables. They can be nested: those of the context are visible, unless they are hidden.
pub struct Globals<'a> {
    pub context: Option<&'a Globals<'a>>,
    pub values: Table<Identifier, Value>,
}

impl<'a> Globals<'a> {
    /// The values of the global variables, with those of the context.
    pub open spec fn model(self) -> Map<Seq<char>, ValueModel>
        decreases self,
    {
        match self.context {
            None => self.values@,
            Some(context) => context.model().union_prefer_right(self.values@),
        }
    }

    /// No global variables.
    pub fn new() -> (r: Globals<'a>)
        ensures
            r.model() == Map::<Seq<char>, ValueModel>::empty(),
    {
        Globals { context: None, values: Table::new() }
    }

    /// The global variables of `context`, to which others can be added.
    pub fn nested(context: &'a Globals<'a>) -> (r: Globals<'a>)
        ensures
            r.model() == context.model(),
            r.values@ == Map::<Seq<char>, ValueModel>::empty(),
            r.context == Some(context),
    {
        let r = Globals { context: Some(context), values: Table::new() };
        assert(r.model() =~= context.model());
        r
    }

    /// The value of a global variable, if there is one.
    pub fn get(&self, name: &Identifier) -> (r: Option<&Value>)
        ensures
            r is Some <==> self.model().contains_key(name@),
            r matches Some(value) ==> value@ == self.model()[name@],
        decreases self,
    {
        match self.values.get(name) {
            Some(value) => Some(value),
            None => match self.context {
                None => None,
                Some(context) => context.get(name),
            },
        }
    }

    /// Adds a global variable, which may hide one of the context. Tells by an error that there was
    /// one already, and keeps that.
    pub fn add(&mut self, name: Identifier, value: Value) -> (r: Result<(), ()>)
        ensures
            r is Ok <==> !old(self).values@.contains_key(name@),
            r is Ok ==> final(self).model() == old(self).model().insert(name@, value@)
                && final(self).values@ == old(self).values@.insert(name@, value@),
            r is Err ==> *final(self) == *old(self),
            final(self).context == old(self).context,
    {
        if self.values.get(&name).is_some() {
            return Err(());
        }
        self.values.insert(name, value);
        assert(self.model() =~= old(self).model().insert(name@, value@));
        Ok(())
    }
}

/// A local variable.
pub struct Local {
    pub value: LazyValue,
    pub mutable: bool,
}

/// The model of a `Local`.
#[verifier::ext_equal]
pub struct LocalModel {
    pub value: LazyModel,
    pub mutable: bool,
}

impl View for Local {
    type V = LocalModel;

    open spec fn view(&self) -> LocalModel {
        LocalModel { value: self.value@, mutable: self.mutable }
    }
}

/// Local variables, block by block. Those of the last block are the innermost.
pub struct VariableMap {
    pub blocks: Vec<Table<Identifier, Local>>,
}

impl View for VariableMap {
    type V = Seq<Map<Seq<char>, LocalModel>>;

    open spec fn view(&self) -> Seq<Map<Seq<char>, LocalModel>> {
        Seq::new(self.blocks@.len(), |i: int| self.blocks@[i]@)
    }
}

/// Why a local variable could not be assigned.
#[derive(Clone, Copy, Debug, PartialEq, Eq, Structural)]
pub enum VariableError {
    CannotAssignImmutableVariable,
    UndefinedVariable,
}

/// The position of the innermost of the first `n` blocks with a variable called `name`, or -1.
pub open spec fn block_of(
    blocks: Seq<Map<Seq<char>, LocalModel>>,
    name: Seq<char>,
    n: int,
) -> int
    decreases n,
{
    if n <= 0 {
        -1
    } else if blocks[n - 1].contains_key(name) {
        n - 1
    } else {
        block_of(blocks, name, n - 1)
    }
}

/// The innermost variable called `name`, if there is one.
pub open spec fn lookup(blocks: Seq<Map<Seq<char>, LocalModel>>, name: Seq<char>) -> Option<
    LocalModel,
> {
    let i = block_of(blocks, name, blocks.len() as int);
    if i < 0 {
        None
    } else {
        Some(blocks[i][name])
    }
}

/// What the blocks become when the innermost variable called `name` is assigned.
pub open spec fn assigned(
    blocks: Seq<Map<Seq<char>, LocalModel>>,
    name: Seq<char>,
    value: LazyModel,
) -> Result<Seq<Map<Seq<char>, LocalModel>>, VariableError> {
    let i = block_of(blocks, name, blocks.len() as int);
    if i < 0 {
        Err(VariableError::UndefinedVariable)
    } else if !blocks[i][name].mutable {
        Err(VariableError::CannotAssignImmutableVariable)
    } else {
        Ok(blocks.update(i, blocks[i].insert(name, LocalModel { value, mutable: true })))
    }
}

pub proof fn lemma_block_of(blocks: Seq<Map<Seq<char>, LocalModel>>, name: Seq<char>, n: int)
    requires
        n <= blocks.len(),
    ensures
        -1 <= block_of(blocks, name, n),
        block_of(blocks, name, n) >= 0 ==> block_of(blocks, name, n) < n && blocks[block_of(
            blocks,
            name,
            n,
        )].contains_key(name),
    decreases n,
{
    if n > 0 {
        lemma_block_of(blocks, name, n - 1);
    }
}

impl VariableMap {
    /// One block without variables.
    pub fn new() -> (r: VariableMap)
        ensures
            r@ == seq![Map::<Seq<char>, LocalModel>::empty()],
    {
        let mut blocks: Vec<Table<Identifier, Local>> = Vec::new();
        blocks.push(Table::new());
        let r = VariableMap { blocks };
        assert(r@ =~= seq![Map::<Seq<char>, LocalModel>::empty()]);
        r
    }

    /// Enters a block.
    pub fn enter(&mut self)
        ensures
            final(self)@ == old(self)@.push(Map::empty()),
    {
        self.blocks.push(Table::new());
        assert(self@ =~= old(self)@.push(Map::empty()));
    }

    /// Leaves the innermost block.
    pub fn leave(&mut self)
        requires
            old(self)@.len() > 0,
        ensures
            final(self)@ == old(self)@.drop_last(),
    {
        self.blocks.pop();
        assert(self@ =~= old(self)@.drop_last());
    }

    /// Forgets the variables of the innermost block.
    pub fn clear(&mut self)
        requires
            old(self)@.len() > 0,
        ensures
            final(self)@ == old(self)@.drop_last().push(Map::empty()),
    {
        self.blocks.pop();
        self.blocks.push(Table::new());
        assert(self@ =~= old(self)@.drop_last().push(Map::empty()));
    }

    /// The position of the innermost block with a variable called `name`.
    fn position(&self, name: &Identifier) -> (r: Option<usize>)
        ensures
            r matches Some(i) ==> i == block_of(self@, name@, self@.len() as int) && i
                < self.blocks.len() && self@[i as int].contains_key(name@),
            r is None ==> block_of(self@, name@, self@.len() as int) == -1,
    {
        let mut n: usize = self.blocks.len();
        while n > 0
            invariant
                n <= self.blocks.len(),
                block_of(self@, name@, self@.len() as int) == block_of(self@, name@, n as int),
            decreases n,
        {
            n -= 1;
            if self.blocks[n].get(name).is_some() {
                return Some(n);
            }
        }
        None
    }

    /// The value of the innermost variable called `name`, if there is one.
    pub fn get(&self, name: &Identifier) -> (r: Option<&LazyValue>)
        ensures
            (match r {
                Some(value) => Some(value@),
                None => None,
            }) == match lookup(self@, name@) {
                Some(local) => Some(local.value),
                None => None,
            },
    {
        match self.position(name) {
            None => None,
            Some(i) => match self.blocks[i].get(name) {
                Some(local) => Some(&local.value),
                None => None,
            },
        }
    }

    /// Adds a variable to the innermost block. Tells by an error that there was one already, and
    /// keeps that.
    pub fn add(&mut self, name: Identifier, value: LazyValue, mutable: bool) -> (r: Result<(), ()>)
        requires
            old(self)@.len() > 0,
        ensures
            r is Ok <==> !old(self)@.last().contains_key(name@),
            r is Ok ==> final(self)@ == old(self)@.drop_last().push(
                old(self)@.last().insert(name@, LocalModel { value: value@, mutable }),
            ),
            r is Err ==> final(self)@ == old(self)@,
    {
        let ghost before = self@;
        let i = self.blocks.len() - 1;
        assert(before.last() == self.blocks@[i as int]@);
        if self.blocks[i].get(&name).is_some() {
            return Err(());
        }
        self.blocks[i].insert(name, Local { value, mutable });
        assert(self@ =~= before.drop_last().push(
            before.last().insert(name@, LocalModel { value: value@, mutable }),
        ));
        Ok(())
    }

    /// Assigns the innermost variable called `name`.
    pub fn set(&mut self, name: Identifier, value: LazyValue) -> (r: Result<(), VariableError>)
        ensures
            r == (match assigned(old(self)@, name@, value@) {
                Ok(_) => Ok(()),
                Err(e) => Err(e),
            }),
            final(self)@ == (match assigned(old(self)@, name@, value@) {
                Ok(blocks) => blocks,
                Err(_) => old(self)@,
            }),
    {
        let ghost before = self@;
        match self.position(&name) {
            None => Err(VariableError::UndefinedVariable),
            Some(i) => {
                let mutable = match self.blocks[i].get(&name) {
                    Some(local) => local.mutable,
                    None => false,
                };
                if !mutable {
                    return Err(VariableError::CannotAssignImmutableVariable);
                }
                self.blocks[i].insert(name, Local { value, mutable: true });
                assert(self@ =~= before.update(
                    i as int,
                    before[i as int].insert(name@, LocalModel { value: value@, mutable: true }),
                ));
                Ok(())
            },
        }
    }
}

} // verus!
