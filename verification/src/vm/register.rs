use vstd::prelude::*;
use crate::vm::tree::{path_model, Tree, TreeModel};
use crate::vm::value::{
    lemma_model_view_insert,
    lemma_tree_view_model,
    Value,
    ValueView,
};

verus! {

/// The number of registers.
pub const NREG: usize = 16;

/// The register file: sixteen slots, each holding a value.
#[derive(Debug)]
pub struct Register {
    regs: [Value; 16],
}

impl View for Register {
    type V = Seq<ValueView>;

    closed spec fn view(&self) -> Seq<ValueView> {
        Seq::new(16, |i: int| self.regs@[i]@)
    }
}

/// The registers after `value` was stored under `key` in the table that
/// register `idx` holds. Registers that hold no table at `idx` stay as they
/// are.
pub open spec fn spec_set_attr(
    regs: Seq<ValueView>,
    idx: int,
    key: Seq<char>,
    value: ValueView,
) -> Seq<ValueView> {
    match regs[idx] {
        ValueView::Table(tree) => regs.update(
            idx,
            ValueView::Table(Box::new(tree.insert(seq![key], value))),
        ),
        _ => regs,
    }
}

/// The registers after `value` was appended to the list that register `idx`
/// holds. Registers that hold no list at `idx` stay as they are.
pub open spec fn spec_add_to_list(regs: Seq<ValueView>, idx: int, value: ValueView) -> Seq<
    ValueView,
> {
    match regs[idx] {
        ValueView::List(items) => regs.update(idx, ValueView::List(items.push(value))),
        _ => regs,
    }
}

/// Sixteen registers that hold nothing.
pub open spec fn spec_empty_registers() -> Seq<ValueView> {
    Seq::new(16, |i: int| ValueView::Uninitialized)
}

impl Register {
    /// Every register file has sixteen slots.
    pub proof fn lemma_len(&self)
        ensures
            self@.len() == 16,
    {
    }

    pub fn new() -> (r: Self)
        ensures
            r@ == spec_empty_registers(),
    {
        let r = Register {
            regs: [
                Value::Uninitialized,
                Value::Uninitialized,
                Value::Uninitialized,
                Value::Uninitialized,
                Value::Uninitialized,
                Value::Uninitialized,
                Value::Uninitialized,
                Value::Uninitialized,
                Value::Uninitialized,
                Value::Uninitialized,
                Value::Uninitialized,
                Value::Uninitialized,
                Value::Uninitialized,
                Value::Uninitialized,
                Value::Uninitialized,
                Value::Uninitialized,
            ],
        };
        assert(r@ =~= spec_empty_registers());
        r
    }

    /// A copy of what register `idx` holds; there is none beyond the
    /// sixteenth.
    pub fn get(&self, idx: usize) -> (r: Option<Value>)
        ensures
            self@.len() == 16,
            idx < 16 ==> (r matches Some(value) && value@ == self@[idx as int]),
            idx >= 16 ==> r is None,
    {
        if idx < 16 {
            Some(self.regs[idx].clone())
        } else {
            None
        }
    }

    /// Stores `value` in register `idx`.
    pub fn set(&mut self, idx: usize, value: Value)
        requires
            idx < 16,
        ensures
            final(self)@ == old(self)@.update(idx as int, value@),
    {
        self.regs[idx] = value;
        assert(self@ =~= old(self)@.update(idx as int, value@));
    }

    /// Stores an empty table in register `idx`.
    pub fn set_new_table(&mut self, idx: usize)
        requires
            idx < 16,
        ensures
            final(self)@ == old(self)@.update(
                idx as int,
                ValueView::Table(Box::new(TreeModel::Leaf(None))),
            ),
    {
        self.set(idx, Value::Table(Box::new(Tree::new())));
    }

    /// Stores `value` under `key` in the table that register `idx` holds.
    /// Where the register holds no table, nothing changes.
    pub fn set_attr_table(&mut self, idx: usize, key: String, value: Value)
        requires
            idx < 16,
        ensures
            final(self)@ == spec_set_attr(old(self)@, idx as int, key@, value@),
    {
        let mut slot = Value::Uninitialized;
        std::mem::swap(&mut slot, &mut self.regs[idx]);
        let ghost before = slot;
        match slot {
            Value::Table(boxed) => {
                let mut tree: Tree<Value> = *boxed;
                let ghost first = tree;
                let mut path: Vec<&str> = Vec::new();
                path.push(key.as_str());
                assert(path_model(path@) =~= seq![key@]);
                let _ = tree.insert(path, value);
                proof {
                    lemma_tree_view_model(first);
                    lemma_tree_view_model(tree);
                    lemma_model_view_insert(first.model(), seq![key@], value);
                }
                self.regs[idx] = Value::Table(Box::new(tree));
            },
            other => {
                self.regs[idx] = other;
            },
        }
        assert(self@ =~= spec_set_attr(old(self)@, idx as int, key@, value@));
    }

    /// Appends `value` to the list that register `idx` holds. Where the
    /// register holds no list, nothing changes.
    pub fn add_to_list(&mut self, idx: usize, value: Value)
        requires
            idx < 16,
        ensures
            final(self)@ == spec_add_to_list(old(self)@, idx as int, value@),
    {
        let mut slot = Value::Uninitialized;
        std::mem::swap(&mut slot, &mut self.regs[idx]);
        let ghost before = slot;
        match slot {
            Value::List(mut items) => {
                items.push(value);
                let after = Value::List(items);
                assert(after@->List_0 =~= before@->List_0.push(value@));
                self.regs[idx] = after;
            },
            other => {
                self.regs[idx] = other;
            },
        }
        assert(self@ =~= spec_add_to_list(old(self)@, idx as int, value@));
    }

    /// Empties every register.
    pub fn reset_all(&mut self)
        ensures
            final(self)@ == spec_empty_registers(),
    {
        let fresh = Register::new();
        self.regs = fresh.regs;
        assert(self@ =~= spec_empty_registers());
    }
}

impl Default for Register {
    fn default() -> (r: Self)
        ensures
            r@ == spec_empty_registers(),
    {
        Register::new()
    }
}

} // verus!
