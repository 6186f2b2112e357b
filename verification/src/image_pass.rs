//! The image pass: a resolved document carries raw image file names; whoever
//! converts images (outside work) turns each name into an asset, in document
//! order, and this pass rebuilds the document around the assets, changing
//! nothing else.
use vstd::prelude::*;
use vstd::view::DeepView;
use crate::diary_content::{
    image_items_model, items_model, Document, ImageItem, Images, Item, SpecImageItem, SpecImages,
    SpecItem,
};
use crate::image::{ImagePath, SpecImagePath};

verus! {

/// The image payloads of one item, in document order.
pub open spec fn item_image_data<TV>(it: SpecItem<TV>) -> Seq<TV>
    decreases it, 1int,
{
    match it {
        SpecItem::Text(_) => Seq::empty(),
        SpecItem::Header(_) => Seq::empty(),
        SpecItem::Images(im) => Seq::new(im.items.len(), |i: int| im.items[i].data),
        SpecItem::List(sub) => items_image_data(sub),
    }
}

/// The image payloads of an item list, in document order.
pub open spec fn items_image_data<TV>(items: Seq<SpecItem<TV>>) -> Seq<TV>
    decreases items, 0int,
{
    if items.len() == 0 {
        Seq::empty()
    } else {
        item_image_data(items[0]) + items_image_data(items.subrange(1, items.len() as int))
    }
}

/// One item with its image payloads replaced by the first entries of `data`,
/// in order.
pub open spec fn replace_item<TV, UV>(it: SpecItem<TV>, data: Seq<UV>) -> SpecItem<UV>
    recommends
        data.len() == item_image_data(it).len(),
    decreases it, 1int,
{
    match it {
        SpecItem::Text(sp) => SpecItem::Text(sp),
        SpecItem::Header(s) => SpecItem::Header(s),
        SpecItem::Images(im) => SpecItem::Images(
            SpecImages {
                title: im.title,
                items: Seq::new(
                    im.items.len(),
                    |i: int| SpecImageItem { data: data[i], caption: im.items[i].caption },
                ),
            },
        ),
        SpecItem::List(sub) => SpecItem::List(replace_items(sub, data)),
    }
}

/// An item list with its image payloads replaced by `data`, consumed left to
/// right.
pub open spec fn replace_items<TV, UV>(items: Seq<SpecItem<TV>>, data: Seq<UV>) -> Seq<
    SpecItem<UV>,
>
    recommends
        data.len() == items_image_data(items).len(),
    decreases items, 0int,
{
    if items.len() == 0 {
        Seq::empty()
    } else {
        let k = item_image_data(items[0]).len() as int;
        seq![replace_item(items[0], data.take(k))] + replace_items(
            items.subrange(1, items.len() as int),
            data.skip(k),
        )
    }
}

/// A list of raw image names seen as character sequences.
pub open spec fn names_model(v: Seq<String>) -> Seq<Seq<char>> {
    Seq::new(v.len(), |i: int| v[i]@)
}

/// A list of resolved assets seen as mathematical values.
pub open spec fn paths_model(v: Seq<ImagePath>) -> Seq<SpecImagePath> {
    Seq::new(v.len(), |i: int| v[i].deep_view())
}

/// The raw image names of a document, in the order the image pass must
/// resolve them.
pub fn collect_image_data(doc: &Document<String>) -> (r: Vec<String>)
    ensures
        names_model(r@) == items_image_data(doc.model()),
{
    let mut out: Vec<String> = Vec::new();
    let items = doc.contents();
    let ghost all = doc.model();
    proof {
        crate::diary_content::lemma_items_model_index(items@);
        assert(names_model(out@) =~= items_image_data(items_model(items@.subrange(0, 0))));
        assert(items_model(items@.subrange(0, 0)) =~= Seq::<SpecItem<Seq<char>>>::empty());
    }
    let mut i: usize = 0;
    while i < items.len()
        invariant
            i <= items@.len(),
            items@ == doc.spec_contents(),
            names_model(out@) == items_image_data(items_model(items@.subrange(0, i as int))),
        decreases items@.len() - i,
    {
        let ghost done = items_model(items@.subrange(0, i as int));
        collect_item_data(&mut out, &items[i]);
        i = i + 1;
        proof {
            assert(items@.subrange(0, i as int) =~= items@.subrange(0, i - 1).push(
                items@[i - 1],
            ));
            crate::diary_content::lemma_items_model_push(
                items@.subrange(0, i - 1),
                items@[i - 1],
            );
            lemma_items_image_data_push(done, items@[i - 1].model());
        }
    }
    proof {
        assert(items@.subrange(0, items@.len() as int) =~= items@);
    }
    out
}

/// Appending one item appends its image payloads.
proof fn lemma_items_image_data_push<TV>(items: Seq<SpecItem<TV>>, it: SpecItem<TV>)
    ensures
        items_image_data(items.push(it)) == items_image_data(items) + item_image_data(it),
    decreases items.len(),
{
    if items.len() == 0 {
        assert(items.push(it)[0] == it);
        assert(items.push(it).subrange(1, items.push(it).len() as int) =~= Seq::<
            SpecItem<TV>,
        >::empty());
        assert(items_image_data(Seq::<SpecItem<TV>>::empty()) =~= Seq::<TV>::empty());
        assert(items_image_data(items.push(it)) =~= item_image_data(it) + Seq::<TV>::empty());
        assert(items_image_data(items) =~= Seq::<TV>::empty());
        assert(items_image_data(items.push(it)) =~= items_image_data(items) + item_image_data(
            it,
        ));
    } else {
        assert(items.push(it)[0] == items[0]);
        assert(items.push(it).subrange(1, items.push(it).len() as int) =~= items.subrange(
            1,
            items.len() as int,
        ).push(it));
        lemma_items_image_data_push(items.subrange(1, items.len() as int), it);
        assert(items_image_data(items.push(it)) =~= items_image_data(items) + item_image_data(
            it,
        ));
    }
}

/// Append the raw image names of one item, in order.
#[verifier::rlimit(100)]
fn collect_item_data(out: &mut Vec<String>, item: &Item<String>)
    ensures
        names_model(final(out)@) == names_model(old(out)@) + item_image_data(item.model()),
    decreases item,
{
    match item {
        Item::Text(_) => {
            proof {
                assert(names_model(out@) =~= names_model(old(out)@) + item_image_data(
                    item.model(),
                ));
            }
        },
        Item::Header(_) => {
            proof {
                assert(names_model(out@) =~= names_model(old(out)@) + item_image_data(
                    item.model(),
                ));
            }
        },
        Item::Images(im) => {
            let ghost start = out@;
            let ghost datas = item_image_data(item.model());
            let mut k: usize = 0;
            proof {
                assert(names_model(out@) =~= names_model(start) + datas.take(0));
            }
            while k < im.items.len()
                invariant
                    k <= im.items@.len(),
                    datas == item_image_data(item.model()),
                    datas.len() == im.items@.len(),
                    forall|j: int| 0 <= j < im.items@.len() ==> datas[j] == (
                    #[trigger] im.items@[j]).data@,
                    names_model(out@) == names_model(start) + datas.take(k as int),
                decreases im.items@.len() - k,
            {
                let ghost prev = out@;
                let name = im.items[k].data.clone();
                proof {
                    assert(name@ == datas[k as int]);
                }
                out.push(name);
                k = k + 1;
                proof {
                    assert(out@ == prev.push(name));
                    assert(names_model(out@) =~= names_model(prev).push(datas[k - 1]));
                    assert(datas.take(k as int) =~= datas.take(k - 1).push(datas[k - 1]));
                    assert(names_model(start) + datas.take(k as int) =~= (names_model(start)
                        + datas.take(k - 1)).push(datas[k - 1]));
                    assert(names_model(out@) =~= names_model(start) + datas.take(k as int));
                }
            }
            proof {
                assert(datas.take(datas.len() as int) =~= datas);
            }
        },
        Item::List(sub) => {
            let ghost all = items_model(sub@);
            proof {
                crate::diary_content::lemma_items_model_index(sub@);
                assert(items_model(sub@.subrange(0, 0)) =~= Seq::<SpecItem<Seq<char>>>::empty());
            }
            let mut i: usize = 0;
            while i < sub.len()
                invariant
                    i <= sub@.len(),
                    all == items_model(sub@),
                    names_model(out@) == names_model(old(out)@) + items_image_data(
                        items_model(sub@.subrange(0, i as int)),
                    ),
                decreases sub@.len() - i,
            {
                let ghost done = items_model(sub@.subrange(0, i as int));
                proof {
                    assert(decreases_to!(sub@ => sub@[i as int]));
                }
                collect_item_data(out, &sub[i]);
                i = i + 1;
                proof {
                    assert(sub@.subrange(0, i as int) =~= sub@.subrange(0, i - 1).push(
                        sub@[i - 1],
                    ));
                    crate::diary_content::lemma_items_model_push(
                        sub@.subrange(0, i - 1),
                        sub@[i - 1],
                    );
                    lemma_items_image_data_push(done, sub@[i - 1].model());
                    assert(names_model(out@) =~= names_model(old(out)@) + items_image_data(
                        items_model(sub@.subrange(0, i as int)),
                    ));
                }
            }
            proof {
                assert(sub@.subrange(0, sub@.len() as int) =~= sub@);
            }
        },
    }
}

/// Taking then skipping splits a sequence of payloads.
proof fn lemma_take_skip<UV>(data: Seq<UV>, a: int, b: int)
    requires
        0 <= a,
        0 <= b,
        a + b <= data.len(),
    ensures
        data.skip(a).take(b) == data.take(a + b).skip(a),
        data.skip(a).skip(b) == data.skip(a + b),
        data.take(a + b).take(a) == data.take(a),
{
    assert(data.skip(a).take(b) =~= data.take(a + b).skip(a));
    assert(data.skip(a).skip(b) =~= data.skip(a + b));
    assert(data.take(a + b).take(a) =~= data.take(a));
}

/// Rebuild a document around resolved assets: the asset at position `i` of
/// `data` replaces the `i`-th image payload in document order; everything
/// else is kept as it stands.  The caller hands exactly one asset per image,
/// in the order [`collect_image_data`] lists them.
pub fn replace_image_data(doc: Document<String>, data: Vec<ImagePath>) -> (r: Document<
    ImagePath,
>)
    requires
        data@.len() == items_image_data(doc.model()).len(),
    ensures
        r.model() == replace_items(doc.model(), paths_model(data@)),
{
    let ghost ms0 = doc.model();
    let ghost pd0 = paths_model(data@);
    let items = doc.into_contents();
    let mut rd = data;
    proof {
        assert(paths_model(rd@) =~= pd0.skip(0));
    }
    let out = replace_items_exec(items, &mut rd);
    proof {
        assert(pd0.take(pd0.len() as int) =~= pd0);
    }
    Document::new(out)
}

/// Rebuild an item list, consuming one asset per image from the front of
/// `rd`.
fn replace_items_exec(items: Vec<Item<String>>, rd: &mut Vec<ImagePath>) -> (r: Vec<
    Item<ImagePath>,
>)
    requires
        items_image_data(items_model(items@)).len() <= old(rd)@.len(),
    ensures
        ({
            let k = items_image_data(items_model(items@)).len() as int;
            &&& items_model(r@) == replace_items(
                items_model(items@),
                paths_model(old(rd)@).take(k),
            )
            &&& final(rd)@ == old(rd)@.subrange(k, old(rd)@.len() as int)
        }),
    decreases items@,
{
    let ghost ms0 = items_model(items@);
    let ghost pd0 = paths_model(old(rd)@);
    let ghost k_all = items_image_data(ms0).len() as int;
    let ghost all0 = items@;
    let mut rest = items;
    let mut out: Vec<Item<ImagePath>> = Vec::new();
    let ghost mut consumed: int = 0;
    let ghost mut taken: int = 0;
    proof {
        assert(items_model(Seq::<Item<ImagePath>>::empty()) =~= Seq::<
            SpecItem<SpecImagePath>,
        >::empty());
        assert(rd@ =~= old(rd)@.subrange(0, old(rd)@.len() as int));
        assert(all0.subrange(0, all0.len() as int) =~= all0);
        assert(pd0.skip(0) =~= pd0);
        assert(Seq::<SpecItem<SpecImagePath>>::empty() + replace_items(ms0, pd0.take(k_all))
            =~= replace_items(ms0, pd0.take(k_all)));
    }
    loop
        invariant
            0 <= taken <= all0.len(),
            rest@ == all0.subrange(taken, all0.len() as int),
            0 <= consumed <= old(rd)@.len(),
            consumed + items_image_data(items_model(rest@)).len() == k_all,
            k_all <= old(rd)@.len(),
            rd@ == old(rd)@.subrange(consumed, old(rd)@.len() as int),
            replace_items(ms0, pd0.take(k_all)) == items_model(out@) + replace_items(
                items_model(rest@),
                pd0.skip(consumed).take(k_all - consumed),
            ),
        decreases rest@.len(),
    {
        if rest.len() == 0 {
            proof {
                assert(items_model(rest@) =~= Seq::<SpecItem<Seq<char>>>::empty());
                assert(consumed == k_all);
                assert(replace_items(
                    items_model(rest@),
                    pd0.skip(consumed).take(k_all - consumed),
                ) =~= Seq::<SpecItem<SpecImagePath>>::empty());
                assert(items_model(out@) + Seq::<SpecItem<SpecImagePath>>::empty() =~= items_model(
                    out@,
                ));
            }
            return out;
        }
        let ghost rest0 = rest@;
        let ghost rd_before = rd@;
        let e = rest.remove(0);
        proof {
            crate::diary_content::lemma_items_model_index(rest0);
            assert(rest@ =~= rest0.subrange(1, rest0.len() as int));
            lemma_items_model_subrange(rest0, 1, rest0.len() as int);
            assert(e == all0[taken]);
            assert(decreases_to!(all0 => all0[taken]));
            assert(items_model(rest0)[0] == e.model());
            assert(items_model(rest0) =~= seq![e.model()] + items_model(rest@));
            // the spec walk needs exactly the count of the head here
            assert(items_image_data(items_model(rest0)) == item_image_data(e.model())
                + items_image_data(items_model(rest@)));
        }
        let ghost k_e = item_image_data(e.model()).len() as int;
        let it2 = replace_item_exec(e, rd);
        proof {
            taken = taken + 1;
            crate::diary_content::lemma_items_model_push(out@, it2);
        }
        out.push(it2);
        proof {
            let rem = pd0.skip(consumed).take(k_all - consumed);
            assert(paths_model(rd_before) =~= pd0.skip(consumed));
            lemma_take_skip(pd0, consumed, k_e);
            assert(paths_model(rd_before).take(k_e) =~= rem.take(k_e));
            assert(rd@ =~= old(rd)@.subrange(consumed + k_e, old(rd)@.len() as int));
            // one unfolding of the spec walk
            assert(replace_items(items_model(rest0), rem) == seq![
                replace_item(e.model(), rem.take(k_e)),
            ] + replace_items(items_model(rest@), rem.skip(k_e)));
            assert(rem.skip(k_e) =~= pd0.skip(consumed + k_e).take(k_all - consumed - k_e));
            assert(items_model(out@) =~= (items_model(out@).drop_last()).push(it2.model()));
            assert(items_model(out@) + replace_items(
                items_model(rest@),
                pd0.skip(consumed + k_e).take(k_all - consumed - k_e),
            ) =~= (items_model(out@).drop_last()) + (seq![it2.model()] + replace_items(
                items_model(rest@),
                rem.skip(k_e),
            )));
            consumed = consumed + k_e;
        }
    }
}

/// A model of a slice of an item list is the slice of the models.
proof fn lemma_items_model_subrange(v: Seq<Item<String>>, a: int, b: int)
    requires
        0 <= a <= b <= v.len(),
    ensures
        items_model(v.subrange(a, b)) == items_model(v).subrange(a, b),
{
    crate::diary_content::lemma_items_model_index(v);
    crate::diary_content::lemma_items_model_index(v.subrange(a, b));
    assert forall|i: int| 0 <= i < b - a implies items_model(v.subrange(a, b))[i] == items_model(
        v,
    ).subrange(a, b)[i] by {
        assert(v.subrange(a, b)[i] == v[a + i]);
        assert(items_model(v.subrange(a, b))[i] == v.subrange(a, b)[i].model());
        assert(items_model(v)[a + i] == v[a + i].model());
    }
    assert(items_model(v.subrange(a, b)) =~= items_model(v).subrange(a, b));
}

/// Rebuild one item, consuming one asset per image from the front of `rd`.
#[verifier::rlimit(100)]
fn replace_item_exec(item: Item<String>, rd: &mut Vec<ImagePath>) -> (r: Item<ImagePath>)
    requires
        item_image_data(item.model()).len() <= old(rd)@.len(),
    ensures
        ({
            let k = item_image_data(item.model()).len() as int;
            &&& r.model() == replace_item(item.model(), paths_model(old(rd)@).take(k))
            &&& final(rd)@ == old(rd)@.subrange(k, old(rd)@.len() as int)
        }),
    decreases item,
{
    let ghost gi = item;
    match item {
        Item::Text(sp) => {
            proof {
                assert(rd@ =~= old(rd)@.subrange(0, old(rd)@.len() as int));
            }
            Item::Text(sp)
        },
        Item::Header(s) => {
            proof {
                assert(rd@ =~= old(rd)@.subrange(0, old(rd)@.len() as int));
            }
            Item::Header(s)
        },
        Item::Images(im) => {
            let ghost k = item_image_data(gi.model()).len() as int;
            let ghost pd = paths_model(old(rd)@);
            let Images { title, items } = im;
            let ghost src0 = items@;
            let mut src = items;
            let mut out: Vec<ImageItem<ImagePath>> = Vec::new();
            let ghost mut j: int = 0;
            proof {
                assert(k == src0.len());
                assert(rd@ =~= old(rd)@.subrange(0, old(rd)@.len() as int));
            }
            loop
                invariant
                    0 <= j <= src0.len(),
                    src0.len() == k,
                    k <= old(rd)@.len(),
                    pd == paths_model(old(rd)@),
                    src@ == src0.subrange(j, src0.len() as int),
                    rd@ == old(rd)@.subrange(j, old(rd)@.len() as int),
                    out@.len() == j,
                    forall|t: int| 0 <= t < j ==> #[trigger] image_items_model(out@)[t] == (
                    SpecImageItem { data: pd[t], caption: image_items_model(src0)[t].caption }),
                decreases src@.len(),
            {
                if src.len() == 0 {
                    break ;
                }
                let entry = src.remove(0);
                let path = rd.remove(0);
                proof {
                    assert(entry == src0[j]);
                    assert(path == old(rd)@[j]);
                    assert(src@ =~= src0.subrange(j + 1, src0.len() as int));
                    assert(rd@ =~= old(rd)@.subrange(j + 1, old(rd)@.len() as int));
                }
                let ghost out_b = out@;
                out.push(ImageItem { data: path, caption: entry.caption });
                proof {
                    j = j + 1;
                    assert(image_items_model(out@)[j - 1] == out@[j - 1].model());
                    assert(out@[j - 1].model() == (SpecImageItem {
                        data: pd[j - 1],
                        caption: image_items_model(src0)[j - 1].caption,
                    })) by {
                        assert(image_items_model(src0)[j - 1] == src0[j - 1].model());
                    }
                    assert forall|t: int| 0 <= t < j implies #[trigger] image_items_model(
                        out@,
                    )[t] == (SpecImageItem {
                        data: pd[t],
                        caption: image_items_model(src0)[t].caption,
                    }) by {
                        if t < j - 1 {
                            assert(out@[t] == out_b[t]);
                            assert(image_items_model(out_b)[t] == out_b[t].model());
                            assert(image_items_model(out@)[t] == out@[t].model());
                        }
                    }
                }
            }
            let result = Item::Images(Images { title, items: out });
            proof {
                assert(gi.model() matches SpecItem::Images(gim) ==> gim.items
                    == image_items_model(src0));
                let gim = gi.model()->Images_0;
                assert(result.model() == replace_item(gi.model(), pd.take(k))) by {
                    assert(image_items_model(out@) =~= Seq::new(
                        gim.items.len(),
                        |i: int|
                            SpecImageItem {
                                data: pd.take(k)[i],
                                caption: gim.items[i].caption,
                            },
                    ));
                }
            }
            result
        },
        Item::List(sub) => {
            proof {
                assert(decreases_to!(gi => gi->List_0));
                assert(decreases_to!(gi->List_0 => gi->List_0@));
                assert(gi->List_0@ == sub@);
            }
            let out = replace_items_exec(sub, rd);
            Item::List(out)
        },
    }
}

/// Replacing image payloads never disturbs the shape of a list: valid list
/// members stay valid.
pub proof fn lemma_replace_keeps_list_ok<TV, UV>(items: Seq<SpecItem<TV>>, data: Seq<UV>)
    requires
        crate::diary_content::list_members_ok(items),
    ensures
        crate::diary_content::list_members_ok(replace_items(items, data)),
    decreases items,
{
    if items.len() > 0 {
        let k = item_image_data(items[0]).len() as int;
        let r = replace_items(items, data);
        assert(r[0] == replace_item(items[0], data.take(k)));
        assert(r.subrange(1, r.len() as int) =~= replace_items(
            items.subrange(1, items.len() as int),
            data.skip(k),
        ));
        match items[0] {
            SpecItem::List(sub) => {
                lemma_replace_keeps_list_ok(sub, data.take(k));
            },
            _ => {},
        }
        lemma_replace_keeps_list_ok(items.subrange(1, items.len() as int), data.skip(k));
    }
}

/// Replacing image payloads keeps a document renderable: the image pass
/// never puts a header inside a list.
pub proof fn lemma_replace_keeps_renderable<TV, UV>(items: Seq<SpecItem<TV>>, data: Seq<UV>)
    requires
        crate::diary_content::doc_renderable(items),
    ensures
        crate::diary_content::doc_renderable(replace_items(items, data)),
    decreases items,
{
    if items.len() > 0 {
        let k = item_image_data(items[0]).len() as int;
        let r = replace_items(items, data);
        assert(r[0] == replace_item(items[0], data.take(k)));
        assert(r.subrange(1, r.len() as int) =~= replace_items(
            items.subrange(1, items.len() as int),
            data.skip(k),
        ));
        match items[0] {
            SpecItem::List(sub) => {
                lemma_replace_keeps_list_ok(sub, data.take(k));
            },
            _ => {},
        }
        lemma_replace_keeps_renderable(items.subrange(1, items.len() as int), data.skip(k));
    }
}

} // verus!
