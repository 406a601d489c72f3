//! Text substitution for handler bodies: `${key}` placeholders are
//! replaced by the values of a context.
use crate::text::{append, bytes_of, lit, split, split_on, to_vec, views_of};
use vstd::prelude::*;

verus! {

/// One entry of a context: the value that stands for a key.
#[derive(Debug, Clone)]
pub struct TemplateValue {
    pub key: Vec<u8>,
    pub value: Vec<u8>,
}

/// The substitution helper.
#[derive(Clone)]
pub struct TemplateEngine {}

/// The placeholder for a key: `${key}`.
pub open spec fn placeholder(key: Seq<u8>) -> Seq<u8> {
    bytes_of("${") + key + bytes_of("}")
}

/// The pieces put together again, with `sep` between each two.
pub open spec fn join_with(pieces: Seq<Seq<u8>>, sep: Seq<u8>) -> Seq<u8>
    decreases pieces.len(),
{
    if pieces.len() == 0 {
        Seq::empty()
    } else if pieces.len() == 1 {
        pieces[0]
    } else {
        join_with(pieces.drop_last(), sep) + sep + pieces.last()
    }
}

/// `s` with every occurrence of `pat`, taken from left to right without
/// overlap, replaced by `rep`. An empty `pat` occurs nowhere.
pub open spec fn replace(s: Seq<u8>, pat: Seq<u8>, rep: Seq<u8>) -> Seq<u8> {
    join_with(split(s, pat), rep)
}

/// The template after the entries of the context were applied one after
/// the other, each to the result of the one before.
pub open spec fn rendered(template: Seq<u8>, context: Seq<TemplateValue>) -> Seq<u8>
    decreases context.len(),
{
    if context.len() == 0 {
        template
    } else {
        replace(
            rendered(template, context.drop_last()),
            placeholder(context.last().key@),
            context.last().value@,
        )
    }
}

/// `s` with every occurrence of `pat` replaced by `rep`.
pub fn replace_all(s: &[u8], pat: &[u8], rep: &[u8]) -> (r: Vec<u8>)
    ensures
        r@ == replace(s@, pat@, rep@),
{
    let pieces = split_on(s, pat);
    let ghost all = views_of(pieces@);
    let mut out = to_vec(pieces[0]);
    let mut k: usize = 1;
    assert(all.take(1) =~= seq![all[0]]);
    while k < pieces.len()
        invariant
            1 <= k <= pieces.len(),
            all == views_of(pieces@),
            out@ == join_with(all.take(k as int), rep@),
        decreases pieces.len() - k,
    {
        proof {
            assert(all.take(k + 1).drop_last() =~= all.take(k as int));
            assert(all.take(k + 1).last() == pieces@[k as int]@);
        }
        append(&mut out, rep);
        append(&mut out, pieces[k]);
        k += 1;
    }
    assert(all.take(pieces.len() as int) =~= all);
    out
}

impl TemplateEngine {
    /// Replaces, for each entry of the context in turn, every `${key}` of
    /// the text by the entry's value.
    pub fn render(&self, template: &[u8], context: &Vec<TemplateValue>) -> (r: Vec<u8>)
        ensures
            r@ == rendered(template@, context@),
    {
        let mut template_res = to_vec(template);
        let mut k: usize = 0;
        assert(context@.take(0) =~= Seq::<TemplateValue>::empty());
        while k < context.len()
            invariant
                k <= context.len(),
                template_res@ == rendered(template@, context@.take(k as int)),
            decreases context.len() - k,
        {
            proof {
                assert(context@.take(k + 1).drop_last() =~= context@.take(k as int));
                assert(context@.take(k + 1).last() == context@[k as int]);
            }
            let mut key_ph = to_vec(lit("${"));
            append(&mut key_ph, context[k].key.as_slice());
            append(&mut key_ph, lit("}"));
            template_res = replace_all(
                template_res.as_slice(),
                key_ph.as_slice(),
                context[k].value.as_slice(),
            );
            k += 1;
        }
        assert(context@.take(context.len() as int) =~= context@);
        template_res
    }
}

} // verus!
