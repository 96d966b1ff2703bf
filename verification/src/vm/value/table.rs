use vstd::prelude::*;
use crate::vm::error::VmError;
use crate::vm::tree::{path_model, Tree, TreeModel};
use crate::vm::value::{
    copy_tree,
    generate_error_message_when_mismatch_casting,
    lemma_model_view_walk,
    lemma_tree_view_model,
    tree_view,
    FromValue,
    Value,
    ValueView,
};

verus! {

/// A table that the host holds: its own copy of the table's attributes.
#[derive(Debug)]
pub struct Table {
    child: Box<Tree<Value>>,
}

impl View for Table {
    type V = TreeModel<ValueView>;

    closed spec fn view(&self) -> TreeModel<ValueView> {
        tree_view(*self.child)
    }
}

impl Table {
    /// The attribute `key` of the table, read as a `T`. There is none where
    /// the table lacks the key or the attribute is of another type.
    pub fn get<T>(&self, key: &str) -> (r: Option<T>) where T: FromValue
        ensures
            match self@.get(seq![key@]) {
                Some(v) => (r is Some <==> T::spec_accepts(v)) && (r matches Some(x)
                    ==> T::spec_reads(v, x)),
                None => r is None,
            },
    {
        let mut path: Vec<&str> = Vec::new();
        path.push(key);
        proof {
            assert(path_model(path@) =~= seq![key@]);
            lemma_tree_view_model(*self.child);
            lemma_model_view_walk(self.child.model(), seq![key@]);
        }
        match self.child.get(path) {
            Some(value) => match T::from_value(value) {
                Ok(x) => Some(x),
                Err(_) => None,
            },
            None => None,
        }
    }
}

impl Clone for Table {
    fn clone(&self) -> (r: Self)
        ensures
            r@ == self@,
    {
        Table { child: Box::new(copy_tree(&self.child)) }
    }
}

impl FromValue for Table {
    open spec fn spec_accepts(v: ValueView) -> bool {
        v is Table
    }

    open spec fn spec_reads(v: ValueView, r: Self) -> bool {
        v == ValueView::Table(Box::new(r@))
    }

    open spec fn spec_dest_name() -> Seq<char> {
        "Table"@
    }

    fn from_value(v: Value) -> (r: Result<Self, VmError>) {
        match v {
            Value::Table(table) => Ok(Table { child: table }),
            v => Err(
                VmError::ValueTypeMismatch {
                    message: generate_error_message_when_mismatch_casting(
                        v,
                        String::from_str("Table"),
                    ),
                },
            ),
        }
    }
}

} // verus!
