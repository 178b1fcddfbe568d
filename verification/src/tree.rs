//! Trees of values, and how a tree stands in a metadata block: as a run
//! of records, one for each value, one in front of each list and one
//! behind it.

use vstd::prelude::*;
use crate::params::{ParamValue, ParamValueModel};

verus! {

/// The kinds of record of a tree.
#[derive(Clone, Copy, Debug, PartialEq, Eq)]
pub enum TokenKind {
    /// The record of a value.
    Leaf,
    /// The record in front of a list.
    Open,
    /// The record behind a list.
    Close,
}

/// A tree of values.
pub enum Tree {
    /// One value.
    Leaf(ParamValue),
    /// A list of trees.
    List(Vec<Tree>),
}

/// A tree of values as a mathematical value.
pub enum TreeModel {
    /// One value.
    Leaf(ParamValueModel),
    /// A list of trees.
    List(Seq<TreeModel>),
}

/// One record of a tree.
pub struct Token {
    pub kind: TokenKind,
    pub value: ParamValue,
}

/// One record of a tree as a mathematical value.
pub struct TokenModel {
    pub kind: TokenKind,
    pub value: ParamValueModel,
}

impl DeepView for Token {
    type V = TokenModel;

    open spec fn deep_view(&self) -> TokenModel {
        TokenModel { kind: self.kind, value: self.value.deep_view() }
    }
}

/// The record of a value.
pub open spec fn leaf_token(v: ParamValueModel) -> TokenModel {
    TokenModel { kind: TokenKind::Leaf, value: v }
}

/// The record in front of a list.
pub open spec fn open_token() -> TokenModel {
    TokenModel { kind: TokenKind::Open, value: ParamValueModel::Empty }
}

/// The record behind a list.
pub open spec fn close_token() -> TokenModel {
    TokenModel { kind: TokenKind::Close, value: ParamValueModel::Empty }
}

/// The trees of a list, or none for a leaf.
pub open spec fn children_of(t: TreeModel) -> Seq<TreeModel> {
    match t {
        TreeModel::List(xs) => xs,
        TreeModel::Leaf(_) => Seq::empty(),
    }
}

/// The records of a tree: for a leaf its value; for a list a record in
/// front, the records of each of its trees, and a record behind.
pub open spec fn tokens_of(t: TreeModel) -> Seq<TokenModel>
    decreases t, 1nat, 0nat,
{
    match t {
        TreeModel::Leaf(v) => seq![leaf_token(v)],
        TreeModel::List(xs) => seq![open_token()] + tokens_from(t, 0),
    }
}

/// The records of the trees of a list from place `i` on, and the record
/// behind the list.
pub open spec fn tokens_from(t: TreeModel, i: nat) -> Seq<TokenModel>
    decreases t, 0nat, children_of(t).len() - i,
{
    match t {
        TreeModel::List(xs) => if i >= xs.len() {
            seq![close_token()]
        } else {
            tokens_of(xs[i as int]) + tokens_from(t, i + 1)
        },
        TreeModel::Leaf(_) => seq![close_token()],
    }
}

/// The tree that the records from `pos` on spell, and the place behind
/// it; none where they spell no tree.
pub open spec fn parse_tree(ts: Seq<TokenModel>, pos: int) -> Option<(TreeModel, int)>
    decreases ts.len() - pos, 0nat,
{
    if pos < 0 || pos >= ts.len() {
        None
    } else if ts[pos].kind == TokenKind::Leaf {
        Some((TreeModel::Leaf(ts[pos].value), pos + 1))
    } else if ts[pos].kind == TokenKind::Open {
        match parse_items(ts, pos + 1) {
            Some((xs, p)) => Some((TreeModel::List(xs), p)),
            None => None,
        }
    } else {
        None
    }
}

/// The trees that the records from `pos` on spell up to the record
/// behind their list, and the place behind that record.
pub open spec fn parse_items(ts: Seq<TokenModel>, pos: int) -> Option<(Seq<TreeModel>, int)>
    decreases ts.len() - pos, 1nat,
{
    if pos < 0 || pos >= ts.len() {
        None
    } else if ts[pos].kind == TokenKind::Close {
        Some((Seq::empty(), pos + 1))
    } else {
        match parse_tree(ts, pos) {
            None => None,
            Some((x, p)) => if p <= pos || p > ts.len() {
                None
            } else {
                match parse_items(ts, p) {
                    Some((rest, q)) => Some((seq![x] + rest, q)),
                    None => None,
                }
            },
        }
    }
}

/// A tree has at least one record.
pub proof fn lemma_tokens_len(t: TreeModel)
    ensures
        tokens_of(t).len() >= 1,
{
}

/// The records of a tree, wherever they stand among other records, spell
/// the tree again.
pub proof fn lemma_parse_tree(front: Seq<TokenModel>, t: TreeModel, back: Seq<TokenModel>)
    ensures
        parse_tree(front + tokens_of(t) + back, front.len() as int) == Some(
            (t, (front.len() + tokens_of(t).len()) as int),
        ),
    decreases t, 1nat, 0nat,
{
    let ts = front + tokens_of(t) + back;
    let pos = front.len() as int;
    assert(ts[pos] == tokens_of(t)[0]);
    match t {
        TreeModel::Leaf(v) => {},
        TreeModel::List(xs) => {
            let head = front + seq![open_token()];
            assert(ts =~= head + tokens_from(t, 0) + back);
            lemma_parse_items(head, t, 0, back);
            assert(xs.skip(0) =~= xs);
        },
    }
}

/// The records of the trees of a list from place `i` on, with the record
/// behind the list, spell those trees again.
pub proof fn lemma_parse_items(
    front: Seq<TokenModel>,
    t: TreeModel,
    i: nat,
    back: Seq<TokenModel>,
)
    requires
        t is List,
        i <= children_of(t).len(),
    ensures
        parse_items(front + tokens_from(t, i) + back, front.len() as int) == Some(
            (children_of(t).skip(i as int), (front.len() + tokens_from(t, i).len()) as int),
        ),
    decreases t, 0nat, children_of(t).len() - i,
{
    let xs = children_of(t);
    let ts = front + tokens_from(t, i) + back;
    let pos = front.len() as int;
    if i >= xs.len() {
        assert(ts[pos] == close_token());
        assert(xs.skip(i as int) =~= Seq::<TreeModel>::empty());
    } else {
        let x = xs[i as int];
        let own = tokens_of(x);
        let rest = tokens_from(t, i + 1);
        lemma_tokens_len(x);
        assert(ts[pos] == own[0]);
        assert(own[0].kind != TokenKind::Close);
        assert(ts =~= front + own + (rest + back));
        lemma_parse_tree(front, x, rest + back);
        assert(ts =~= (front + own) + rest + back);
        lemma_parse_items(front + own, t, i + 1, back);
        assert(xs.skip(i as int) =~= seq![x] + xs.skip((i + 1) as int));
    }
}

/// The trees of a list, or none for a leaf.
pub open spec fn items_of(t: Tree) -> Seq<Tree> {
    match t {
        Tree::List(xs) => xs@,
        Tree::Leaf(_) => Seq::empty(),
    }
}

/// The content of a tree.
pub open spec fn model_of(t: Tree) -> TreeModel
    decreases t, 1nat, 0nat,
{
    match t {
        Tree::Leaf(v) => TreeModel::Leaf(v.deep_view()),
        Tree::List(xs) => TreeModel::List(models_from(t, 0)),
    }
}

/// The contents of the trees of a list from place `i` on.
pub open spec fn models_from(t: Tree, i: nat) -> Seq<TreeModel>
    decreases t, 0nat, items_of(t).len() - i,
{
    match t {
        Tree::List(xs) => if i >= xs@.len() {
            Seq::empty()
        } else {
            seq![model_of(xs@[i as int])] + models_from(t, i + 1)
        },
        Tree::Leaf(_) => Seq::empty(),
    }
}

/// The contents of trees.
pub open spec fn models(xs: Seq<Tree>) -> Seq<TreeModel> {
    Seq::new(xs.len(), |k: int| model_of(xs[k]))
}

/// The content of a list is the contents of its trees.
pub proof fn lemma_models_from(xs: Vec<Tree>, i: nat)
    requires
        i <= xs@.len(),
    ensures
        models_from(Tree::List(xs), i) == models(xs@).skip(i as int),
    decreases xs@.len() - i,
{
    if i < xs@.len() {
        lemma_models_from(xs, i + 1);
    }
    assert(models_from(Tree::List(xs), i) =~= models(xs@).skip(i as int));
}

/// The content of a list is the list of the contents of its trees.
pub proof fn lemma_list_model(xs: Vec<Tree>)
    ensures
        model_of(Tree::List(xs)) == TreeModel::List(models(xs@)),
{
    lemma_models_from(xs, 0);
    assert(models(xs@).skip(0) =~= models(xs@));
}

/// Moves records to the end of others.
fn append_tokens(out: &mut Vec<Token>, more: Vec<Token>)
    ensures
        final(out).deep_view() == old(out).deep_view() + more.deep_view(),
{
    let ghost start = out.deep_view();
    let ghost all = more.deep_view();
    assert(start + all.take(0) =~= start);
    for tok in it: more
        invariant
            it.seq().len() == all.len(),
            forall|j: int| 0 <= j < all.len() ==> it.seq()[j].deep_view() == all[j],
            out.deep_view() == start + all.take(it.index() as int),
    {
        let ghost k = it.index() as int;
        let ghost before = *out;
        out.push(tok);
        proof {
            crate::params::lemma_deep_view_push(before, *out, tok);
            assert(all.take(k + 1) =~= all.take(k).push(all[k]));
            assert(out.deep_view() =~= start + all.take(k + 1));
        }
    }
    assert(all.take(all.len() as int) =~= all);
}

/// Makes the records of a tree.
pub fn tree_tokens(t: &Tree) -> (out: Vec<Token>)
    ensures
        out.deep_view() == tokens_of(model_of(*t)),
    decreases t,
{
    let mut out: Vec<Token> = Vec::new();
    assert(out.deep_view() =~= Seq::<TokenModel>::empty());
    match t {
        Tree::Leaf(v) => {
            let tok = Token { kind: TokenKind::Leaf, value: clone_value(v) };
            let ghost before = out;
            out.push(tok);
            proof {
                crate::params::lemma_deep_view_push(before, out, tok);
                assert(out.deep_view() =~= tokens_of(model_of(*t)));
            }
        },
        Tree::List(xs) => {
            let ghost m = model_of(*t);
            proof {
                lemma_list_model(*xs);
            }
            let tok = Token { kind: TokenKind::Open, value: ParamValue::Empty };
            let ghost before = out;
            out.push(tok);
            proof {
                crate::params::lemma_deep_view_push(before, out, tok);
                assert(out.deep_view() =~= seq![open_token()]);
            }
            let mut i: usize = 0;
            while i < xs.len()
                invariant
                    i <= xs@.len(),
                    *t == Tree::List(*xs),
                    m == TreeModel::List(models(xs@)),
                    out.deep_view() + tokens_from(m, i as nat) == tokens_of(m),
                decreases xs@.len() - i,
            {
                let ghost sofar = out.deep_view();
                assert(models(xs@)[i as int] == model_of(xs@[i as int]));
                assert(t->List_0 == *xs);
                let sub = tree_tokens(&xs[i]);
                append_tokens(&mut out, sub);
                proof {
                    assert(models(xs@)[i as int] == model_of(xs@[i as int]));
                    assert(out.deep_view() + tokens_from(m, (i + 1) as nat) =~= sofar + tokens_from(
                        m,
                        i as nat,
                    ));
                }
                i = i + 1;
            }
            let tok = Token { kind: TokenKind::Close, value: ParamValue::Empty };
            let ghost before = out;
            let ghost sofar = out.deep_view();
            out.push(tok);
            proof {
                crate::params::lemma_deep_view_push(before, out, tok);
                assert(out.deep_view() =~= sofar + tokens_from(m, i as nat));
            }
        },
    }
    out
}

/// Copies a value.
pub fn clone_value(v: &ParamValue) -> (r: ParamValue)
    ensures
        r.deep_view() == v.deep_view(),
{
    match v {
        ParamValue::Empty => ParamValue::Empty,
        ParamValue::Text(s) => ParamValue::Text(s.clone()),
        ParamValue::Number(b) => ParamValue::Number(*b),
    }
}

/// Reads the tree that the records from `pos` on spell, and the place
/// behind it.
pub fn read_tree(ts: &Vec<Token>, pos: usize) -> (r: Option<(Tree, usize)>)
    ensures
        match r {
            Some(v) => parse_tree(ts.deep_view(), pos as int) == Some(
                (model_of(v.0), v.1 as int),
            ) && pos < v.1 <= ts@.len(),
            None => parse_tree(ts.deep_view(), pos as int) is None,
        },
    decreases ts@.len() - pos,
{
    let ghost tm = ts.deep_view();
    if pos >= ts.len() {
        return None;
    }
    assert(tm[pos as int] == ts@[pos as int].deep_view());
    match ts[pos].kind {
        TokenKind::Leaf => {
            return Some((Tree::Leaf(clone_value(&ts[pos].value)), pos + 1));
        },
        TokenKind::Close => {
            return None;
        },
        TokenKind::Open => {},
    }
    let mut items: Vec<Tree> = Vec::new();
    let mut p: usize = pos + 1;
    loop
        invariant
            pos < p <= ts@.len(),
            tm == ts.deep_view(),
            tm[pos as int].kind == TokenKind::Open,
            parse_items(tm, pos + 1) == (match parse_items(tm, p as int) {
                Some((rest, q)) => Some((models(items@) + rest, q)),
                None => None::<(Seq<TreeModel>, int)>,
            }),
        decreases ts@.len() - p,
    {
        if p >= ts.len() {
            return None;
        }
        assert(tm[p as int] == ts@[p as int].deep_view());
        let closes = match ts[p].kind {
            TokenKind::Close => true,
            _ => false,
        };
        if closes {
            proof {
                lemma_list_model(items);
                assert(models(items@) + Seq::<TreeModel>::empty() =~= models(items@));
            }
            return Some((Tree::List(items), p + 1));
        }
        match read_tree(ts, p) {
            None => {
                return None;
            },
            Some((x, q)) => {
                let ghost before = items@;
                items.push(x);
                proof {
                    assert(models(items@) =~= models(before) + seq![model_of(x)]);
                    match parse_items(tm, q as int) {
                        Some((rest, e)) => {
                            assert(models(items@) + rest =~= models(before) + (seq![model_of(x)]
                                + rest));
                        },
                        None => {},
                    }
                }
                p = q;
            },
        }
    }
}

} // verus!
