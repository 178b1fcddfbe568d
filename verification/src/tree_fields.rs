//! How the plain fields of an element stand in a tree: each as one
//! value.

use vstd::prelude::*;
use crate::params::{ParamValue, ParamValueModel};
use crate::run::NumericType;
use crate::tree::{clone_value, model_of, Tree, TreeModel};

verus! {

/// The tree of a text.
pub open spec fn text_tree(s: Seq<char>) -> TreeModel {
    TreeModel::Leaf(ParamValueModel::Text(s))
}

/// The text that a tree holds.
pub open spec fn tree_text(t: TreeModel) -> Option<Seq<char>> {
    match t {
        TreeModel::Leaf(ParamValueModel::Text(s)) => Some(s),
        _ => None,
    }
}

/// The tree of an optional text.
pub open spec fn opt_text_tree(o: Option<Seq<char>>) -> TreeModel {
    match o {
        Some(s) => TreeModel::Leaf(ParamValueModel::Text(s)),
        None => TreeModel::Leaf(ParamValueModel::Empty),
    }
}

/// The optional text that a tree holds.
pub open spec fn tree_opt_text(t: TreeModel) -> Option<Option<Seq<char>>> {
    match t {
        TreeModel::Leaf(ParamValueModel::Text(s)) => Some(Some(s)),
        TreeModel::Leaf(ParamValueModel::Empty) => Some(None),
        _ => None,
    }
}

/// The tree of an optional count.
pub open spec fn opt_number_tree(o: Option<u64>) -> TreeModel {
    match o {
        Some(n) => TreeModel::Leaf(ParamValueModel::Number(n)),
        None => TreeModel::Leaf(ParamValueModel::Empty),
    }
}

/// The optional count up to `max` that a tree holds.
pub open spec fn tree_opt_number(t: TreeModel, max: u64) -> Option<Option<u64>> {
    match t {
        TreeModel::Leaf(ParamValueModel::Number(n)) => if n <= max {
            Some(Some(n))
        } else {
            None
        },
        TreeModel::Leaf(ParamValueModel::Empty) => Some(None),
        _ => None,
    }
}

/// An optional 32-bit count as a 64-bit one.
pub open spec fn wide_u32(o: Option<u32>) -> Option<u64> {
    match o {
        Some(n) => Some(n as u64),
        None => None,
    }
}

/// An optional count of this machine as a 64-bit one.
pub open spec fn wide_usize(o: Option<usize>) -> Option<u64> {
    match o {
        Some(n) => Some(n as u64),
        None => None,
    }
}

/// An optional truth value as a count.
pub open spec fn wide_bool(o: Option<bool>) -> Option<u64> {
    match o {
        Some(b) => Some(if b {
            1u64
        } else {
            0u64
        }),
        None => None,
    }
}

/// An optional element type as a count.
pub open spec fn wide_type(o: Option<NumericType>) -> Option<u64> {
    match o {
        Some(NumericType::Int32) => Some(0u64),
        Some(NumericType::Float32) => Some(1u64),
        Some(NumericType::Int64) => Some(2u64),
        Some(NumericType::Float64) => Some(3u64),
        None => None,
    }
}

/// The tree of an optional 32-bit count.
pub open spec fn opt_u32_tree(o: Option<u32>) -> TreeModel {
    opt_number_tree(wide_u32(o))
}

/// The optional 32-bit count that a tree holds.
pub open spec fn tree_opt_u32(t: TreeModel) -> Option<Option<u32>> {
    match tree_opt_number(t, 0xffff_ffff) {
        Some(Some(n)) => Some(Some(n as u32)),
        Some(None) => Some(None),
        None => None,
    }
}

/// The tree of an optional count of this machine.
pub open spec fn opt_usize_tree(o: Option<usize>) -> TreeModel {
    opt_number_tree(wide_usize(o))
}

/// The optional count of this machine that a tree holds.
pub open spec fn tree_opt_usize(t: TreeModel) -> Option<Option<usize>> {
    match tree_opt_number(t, usize::MAX as u64) {
        Some(Some(n)) => Some(Some(n as usize)),
        Some(None) => Some(None),
        None => None,
    }
}

/// The tree of an optional truth value.
pub open spec fn opt_bool_tree(o: Option<bool>) -> TreeModel {
    opt_number_tree(wide_bool(o))
}

/// The optional truth value that a tree holds.
pub open spec fn tree_opt_bool(t: TreeModel) -> Option<Option<bool>> {
    match tree_opt_number(t, 1) {
        Some(Some(n)) => Some(Some(n == 1)),
        Some(None) => Some(None),
        None => None,
    }
}

/// The tree of an optional element type.
pub open spec fn opt_type_tree(o: Option<NumericType>) -> TreeModel {
    opt_number_tree(wide_type(o))
}

/// The optional element type that a tree holds.
pub open spec fn tree_opt_type(t: TreeModel) -> Option<Option<NumericType>> {
    match tree_opt_number(t, 3) {
        Some(Some(n)) => Some(
            Some(
                if n == 0 {
                    NumericType::Int32
                } else if n == 1 {
                    NumericType::Float32
                } else if n == 2 {
                    NumericType::Int64
                } else {
                    NumericType::Float64
                },
            ),
        ),
        Some(None) => Some(None),
        None => None,
    }
}

/// The tree of a value.
pub open spec fn value_tree(v: ParamValueModel) -> TreeModel {
    TreeModel::Leaf(v)
}

/// The value that a tree holds.
pub open spec fn tree_value(t: TreeModel) -> Option<ParamValueModel> {
    match t {
        TreeModel::Leaf(v) => Some(v),
        _ => None,
    }
}

/// Makes the tree of a text.
pub fn make_text_tree(s: &String) -> (t: Tree)
    ensures
        model_of(t) == text_tree(s@),
{
    Tree::Leaf(ParamValue::Text(s.clone()))
}

/// Reads the text that a tree holds.
pub fn read_text_tree(t: &Tree) -> (r: Option<String>)
    ensures
        r.deep_view() == tree_text(model_of(*t)),
{
    match t {
        Tree::Leaf(ParamValue::Text(s)) => Some(s.clone()),
        _ => None,
    }
}

/// Makes the tree of an optional text.
pub fn make_opt_text_tree(o: &Option<String>) -> (t: Tree)
    ensures
        model_of(t) == opt_text_tree(o.deep_view()),
{
    match o {
        Some(s) => Tree::Leaf(ParamValue::Text(s.clone())),
        None => Tree::Leaf(ParamValue::Empty),
    }
}

/// Reads the optional text that a tree holds.
pub fn read_opt_text_tree(t: &Tree) -> (r: Option<Option<String>>)
    ensures
        r.deep_view() == tree_opt_text(model_of(*t)),
{
    match t {
        Tree::Leaf(ParamValue::Text(s)) => Some(Some(s.clone())),
        Tree::Leaf(ParamValue::Empty) => Some(None),
        _ => None,
    }
}

/// Reads the optional count up to `max` that a tree holds.
fn read_opt_number(t: &Tree, max: u64) -> (r: Option<Option<u64>>)
    ensures
        r == tree_opt_number(model_of(*t), max),
{
    match t {
        Tree::Leaf(ParamValue::Number(n)) => if *n <= max {
            Some(Some(*n))
        } else {
            None
        },
        Tree::Leaf(ParamValue::Empty) => Some(None),
        _ => None,
    }
}

/// Makes the tree of an optional 32-bit count.
pub fn make_opt_u32_tree(o: &Option<u32>) -> (t: Tree)
    ensures
        model_of(t) == opt_u32_tree(*o),
{
    match o {
        Some(n) => Tree::Leaf(ParamValue::Number(*n as u64)),
        None => Tree::Leaf(ParamValue::Empty),
    }
}

/// Reads the optional 32-bit count that a tree holds.
pub fn read_opt_u32_tree(t: &Tree) -> (r: Option<Option<u32>>)
    ensures
        r == tree_opt_u32(model_of(*t)),
{
    match read_opt_number(t, 0xffff_ffff) {
        Some(Some(n)) => Some(Some(n as u32)),
        Some(None) => Some(None),
        None => None,
    }
}

/// Makes the tree of an optional count of this machine.
pub fn make_opt_usize_tree(o: &Option<usize>) -> (t: Tree)
    ensures
        model_of(t) == opt_usize_tree(*o),
{
    match o {
        Some(n) => Tree::Leaf(ParamValue::Number(*n as u64)),
        None => Tree::Leaf(ParamValue::Empty),
    }
}

/// Reads the optional count of this machine that a tree holds.
pub fn read_opt_usize_tree(t: &Tree) -> (r: Option<Option<usize>>)
    ensures
        r == tree_opt_usize(model_of(*t)),
{
    match read_opt_number(t, usize::MAX as u64) {
        Some(Some(n)) => Some(Some(n as usize)),
        Some(None) => Some(None),
        None => None,
    }
}

/// Makes the tree of an optional truth value.
pub fn make_opt_bool_tree(o: &Option<bool>) -> (t: Tree)
    ensures
        model_of(t) == opt_bool_tree(*o),
{
    match o {
        Some(true) => Tree::Leaf(ParamValue::Number(1)),
        Some(false) => Tree::Leaf(ParamValue::Number(0)),
        None => Tree::Leaf(ParamValue::Empty),
    }
}

/// Reads the optional truth value that a tree holds.
pub fn read_opt_bool_tree(t: &Tree) -> (r: Option<Option<bool>>)
    ensures
        r == tree_opt_bool(model_of(*t)),
{
    match read_opt_number(t, 1) {
        Some(Some(n)) => Some(Some(n == 1)),
        Some(None) => Some(None),
        None => None,
    }
}

/// Makes the tree of an optional element type.
pub fn make_opt_type_tree(o: &Option<NumericType>) -> (t: Tree)
    ensures
        model_of(t) == opt_type_tree(*o),
{
    match o {
        Some(NumericType::Int32) => Tree::Leaf(ParamValue::Number(0)),
        Some(NumericType::Float32) => Tree::Leaf(ParamValue::Number(1)),
        Some(NumericType::Int64) => Tree::Leaf(ParamValue::Number(2)),
        Some(NumericType::Float64) => Tree::Leaf(ParamValue::Number(3)),
        None => Tree::Leaf(ParamValue::Empty),
    }
}

/// Reads the optional element type that a tree holds.
pub fn read_opt_type_tree(t: &Tree) -> (r: Option<Option<NumericType>>)
    ensures
        r == tree_opt_type(model_of(*t)),
{
    match read_opt_number(t, 3) {
        Some(Some(n)) => Some(
            Some(
                if n == 0 {
                    NumericType::Int32
                } else if n == 1 {
                    NumericType::Float32
                } else if n == 2 {
                    NumericType::Int64
                } else {
                    NumericType::Float64
                },
            ),
        ),
        Some(None) => Some(None),
        None => None,
    }
}

/// Makes the tree of a value.
pub fn make_value_tree(v: &ParamValue) -> (t: Tree)
    ensures
        model_of(t) == value_tree(v.deep_view()),
{
    Tree::Leaf(clone_value(v))
}

/// Reads the value that a tree holds.
pub fn read_value_tree(t: &Tree) -> (r: Option<ParamValue>)
    ensures
        r.deep_view() == tree_value(model_of(*t)),
{
    match t {
        Tree::Leaf(v) => Some(clone_value(v)),
        _ => None,
    }
}

/// Each plain field comes back from its tree as it went in.
pub proof fn lemma_fields_come_back()
    ensures
        forall|s: Seq<char>| #[trigger] tree_text(text_tree(s)) == Some(s),
        forall|o: Option<Seq<char>>| #[trigger] tree_opt_text(opt_text_tree(o)) == Some(o),
        forall|o: Option<u32>| #[trigger] tree_opt_u32(opt_u32_tree(o)) == Some(o),
        forall|o: Option<usize>| #[trigger] tree_opt_usize(opt_usize_tree(o)) == Some(o),
        forall|o: Option<bool>| #[trigger] tree_opt_bool(opt_bool_tree(o)) == Some(o),
        forall|o: Option<NumericType>| #[trigger] tree_opt_type(opt_type_tree(o)) == Some(o),
        forall|v: ParamValueModel| #[trigger] tree_value(value_tree(v)) == Some(v),
{
}

} // verus!
