//! The document tree as it stands in a metadata block: a record that
//! marks it, then one record for each record of the tree.

use vstd::prelude::*;
use crate::document::{MzML, MzMLModel};
use crate::flatten::{attr_param, make_attr_param};
use crate::meta_laws::{normal, normal_params};
use crate::metadatum::{ACC_TREE_CLOSE, ACC_TREE_LEAF, ACC_TREE_MARK, ACC_TREE_OPEN};
use crate::params::{CvParam, CvParamModel, lemma_deep_view_push, ParamValue, ParamValueModel};
use crate::precursor::{model_tail, param_tail};
use crate::round_trip::lemma_attribute_reads_back;
use crate::tree::{
    clone_value, lemma_parse_tree, parse_tree, read_tree, Token, TokenKind, TokenModel, tokens_of,
    tree_tokens,
};
use crate::tree_of::{
    bare_mzml, lemma_mzml_comes_back, make_mzml_tree, mzml_tree, read_mzml_tree, tree_mzml,
};

verus! {

/// The tail of the records of a kind.
pub open spec fn tail_of_kind(k: TokenKind) -> u32 {
    match k {
        TokenKind::Leaf => ACC_TREE_LEAF,
        TokenKind::Open => ACC_TREE_OPEN,
        TokenKind::Close => ACC_TREE_CLOSE,
    }
}

/// The kind of record that a tail stands for: a value unless the tail
/// is that of the record in front of a list or behind one.
pub open spec fn kind_of_tail(t: u32) -> TokenKind {
    if t == ACC_TREE_OPEN {
        TokenKind::Open
    } else if t == ACC_TREE_CLOSE {
        TokenKind::Close
    } else {
        TokenKind::Leaf
    }
}

/// The parameter that carries a record of the tree.
pub open spec fn record_of(tok: TokenModel) -> CvParamModel {
    attr_param(tail_of_kind(tok.kind), tok.value)
}

/// The record of the tree that a parameter carries.
pub open spec fn token_of(p: CvParamModel) -> TokenModel {
    TokenModel { kind: kind_of_tail(model_tail(p)), value: p.value }
}

/// The parameters that carry records of the tree.
pub open spec fn records_of(ts: Seq<TokenModel>) -> Seq<CvParamModel> {
    Seq::new(ts.len(), |k: int| record_of(ts[k]))
}

/// The records of the tree that parameters carry.
pub open spec fn tokens_in(ps: Seq<CvParamModel>) -> Seq<TokenModel> {
    Seq::new(ps.len(), |k: int| token_of(ps[k]))
}

/// The record that marks the document tree.
pub open spec fn mark() -> CvParamModel {
    attr_param(ACC_TREE_MARK, ParamValueModel::Empty)
}

/// The parameters that carry a document: the mark, then the records of
/// its tree.
pub open spec fn carried(d: MzMLModel) -> Seq<CvParamModel> {
    seq![mark()] + records_of(tokens_of(mzml_tree(d)))
}

/// Whether parameters start with the mark of a document tree.
pub open spec fn is_carrier(ps: Seq<CvParamModel>) -> bool {
    ps.len() > 0 && model_tail(ps[0]) == ACC_TREE_MARK && ps[0].cv_ref is None
}

/// The document that parameters carry: the one that the records behind
/// the mark spell; none where there is no mark or the records spell no
/// document.
pub open spec fn carried_document(ps: Seq<CvParamModel>) -> Option<MzMLModel> {
    if is_carrier(ps) {
        match parse_tree(tokens_in(ps.skip(1)), 0) {
            Some((t, _)) => tree_mzml(t),
            None => None,
        }
    } else {
        None
    }
}

/// A record of the tree comes back from a block as it went in.
pub proof fn lemma_record_reads_back(tok: TokenModel, table: Map<Seq<u8>, Seq<char>>)
    ensures
        token_of(normal(record_of(tok), table)) == tok,
{
    lemma_attribute_reads_back(tail_of_kind(tok.kind), tok.value, table);
}

/// The parameters that carry a document, as they come back from a block
/// with any terms behind them, carry the document as it went in, but
/// for the elements of its arrays.
pub proof fn lemma_carried_reads_back(
    d: MzMLModel,
    terms: Seq<CvParamModel>,
    table: Map<Seq<u8>, Seq<char>>,
)
    ensures
        carried_document(normal_params(carried(d) + terms, table)) == Some(bare_mzml(d)),
{
    let tree = mzml_tree(d);
    let toks = tokens_of(tree);
    let all = carried(d) + terms;
    let ps = normal_params(all, table);
    assert(all[0] == mark());
    lemma_attribute_reads_back(ACC_TREE_MARK, ParamValueModel::Empty, table);
    assert(is_carrier(ps));
    let back = tokens_in(normal_params(terms, table));
    let got = tokens_in(ps.skip(1));
    assert(got =~= toks + back) by {
        assert(got.len() == toks.len() + back.len());
        assert forall|k: int| 0 <= k < got.len() implies got[k] == (toks + back)[k] by {
            if k < toks.len() {
                assert(all[1 + k] == record_of(toks[k]));
                lemma_record_reads_back(toks[k], table);
            } else {
                assert(all[1 + k] == terms[k - toks.len()]);
            }
        }
    }
    lemma_parse_tree(Seq::empty(), tree, back);
    assert(Seq::<TokenModel>::empty() + toks + back =~= toks + back);
    lemma_mzml_comes_back(d);
}

/// Makes the parameters that carry a document.
pub fn make_carried(doc: &MzML) -> (out: Vec<CvParam>)
    ensures
        out.deep_view() == carried(doc.deep_view()),
{
    let tree = make_mzml_tree(doc);
    let toks = tree_tokens(&tree);
    let ghost tm = toks.deep_view();
    let mut out: Vec<CvParam> = Vec::new();
    let first = make_attr_param(ACC_TREE_MARK, &ParamValue::Empty);
    let ghost before = out;
    out.push(first);
    proof {
        lemma_deep_view_push(before, out, first);
        assert(out.deep_view() =~= seq![mark()] + records_of(tm).take(0));
    }
    let mut i: usize = 0;
    while i < toks.len()
        invariant
            i <= toks@.len(),
            tm == toks.deep_view(),
            out.deep_view() == seq![mark()] + records_of(tm).take(i as int),
        decreases toks@.len() - i,
    {
        assert(tm[i as int] == toks@[i as int].deep_view());
        let tail = match toks[i].kind {
            TokenKind::Leaf => ACC_TREE_LEAF,
            TokenKind::Open => ACC_TREE_OPEN,
            TokenKind::Close => ACC_TREE_CLOSE,
        };
        let p = make_attr_param(tail, &toks[i].value);
        let ghost before = out;
        out.push(p);
        proof {
            lemma_deep_view_push(before, out, p);
            assert(records_of(tm).take(i + 1) =~= records_of(tm).take(i as int).push(
                record_of(tm[i as int]),
            ));
            assert(out.deep_view() =~= seq![mark()] + records_of(tm).take(i + 1));
        }
        i = i + 1;
    }
    assert(records_of(tm).take(i as int) =~= records_of(tm));
    out
}

/// Reads the document that parameters carry.
pub fn read_carried(params: &Vec<CvParam>) -> (r: Option<MzML>)
    ensures
        match r {
            Some(d) => carried_document(params.deep_view()) == Some(d.deep_view()),
            None => carried_document(params.deep_view()) is None,
        },
{
    let ghost ps = params.deep_view();
    if params.len() == 0 {
        return None;
    }
    assert(ps[0] == params@[0].deep_view());
    if param_tail(&params[0]) != ACC_TREE_MARK || params[0].cv_ref.is_some() {
        return None;
    }
    let ghost want = tokens_in(ps.skip(1));
    let mut toks: Vec<Token> = Vec::new();
    let mut i: usize = 1;
    while i < params.len()
        invariant
            1 <= i <= params@.len(),
            ps == params.deep_view(),
            want == tokens_in(ps.skip(1)),
            toks@.len() == i - 1,
            forall|k: int| 0 <= k < i - 1 ==> (#[trigger] toks@[k]).deep_view() == want[k],
        decreases params@.len() - i,
    {
        assert(ps[i as int] == params@[i as int].deep_view());
        assert(want[i - 1] == token_of(ps[i as int]));
        let t = param_tail(&params[i]);
        let kind = if t == ACC_TREE_OPEN {
            TokenKind::Open
        } else if t == ACC_TREE_CLOSE {
            TokenKind::Close
        } else {
            TokenKind::Leaf
        };
        toks.push(Token { kind, value: clone_value(&params[i].value) });
        i = i + 1;
    }
    assert(toks.deep_view() =~= want);
    match read_tree(&toks, 0) {
        Some((tree, _)) => read_mzml_tree(&tree),
        None => None,
    }
}

} // verus!
