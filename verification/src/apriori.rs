use vstd::prelude::*;

verus! {

/// The byte that ends a line.
pub const LINE_END: u8 = 10;

/// The byte that parts the products of a line.
pub const FIELD_END: u8 = 44;

/// The pieces of `text` between the occurrences of `sep`: one more than there are
/// occurrences, in the order in which they stand in `text`, and empty where two occurrences
/// touch or one stands at an end.
pub open spec fn split_spec(text: Seq<u8>, sep: u8) -> Seq<Seq<u8>>
    decreases text.len(),
{
    if text.len() == 0 {
        seq![Seq::empty()]
    } else {
        let rest = split_spec(text.drop_first(), sep);
        if text[0] == sep {
            seq![Seq::empty()] + rest
        } else {
            rest.update(0, seq![text[0]] + rest[0])
        }
    }
}

/// The pieces of `pieces` with `sep` between each two of them, as one text.
pub open spec fn join_spec(pieces: Seq<Seq<u8>>, sep: u8) -> Seq<u8>
    decreases pieces.len(),
{
    if pieces.len() == 0 {
        Seq::empty()
    } else if pieces.len() == 1 {
        pieces[0]
    } else {
        pieces[0] + seq![sep] + join_spec(pieces.drop_first(), sep)
    }
}

/// The lines at the start of `lines` that come before the first empty line.
pub open spec fn leading_lines(lines: Seq<Seq<u8>>) -> Seq<Seq<u8>>
    decreases lines.len(),
{
    if lines.len() == 0 || lines[0].len() == 0 {
        Seq::empty()
    } else {
        seq![lines[0]] + leading_lines(lines.drop_first())
    }
}

/// The transactions that `text` holds: one for each line after the first, up to the first
/// empty line, each with the products that the commas of the line part.
pub open spec fn transactions_spec(text: Seq<u8>) -> Seq<Seq<Seq<u8>>> {
    let lines = leading_lines(split_spec(text, LINE_END).drop_first());
    Seq::new(lines.len(), |i: int| split_spec(lines[i], FIELD_END))
}

/// Whether `transaction` holds every product of `products`.
pub open spec fn holds_all(transaction: Seq<Seq<u8>>, products: Seq<Seq<u8>>) -> bool {
    forall|i: int| 0 <= i < products.len() ==> transaction.contains(#[trigger] products[i])
}

/// How many of `transactions` hold every product of `products`.
pub open spec fn support_count_spec(
    products: Seq<Seq<u8>>,
    transactions: Seq<Seq<Seq<u8>>>,
) -> nat
    decreases transactions.len(),
{
    if transactions.len() == 0 {
        0
    } else {
        support_count_spec(products, transactions.drop_last()) + if holds_all(
            transactions.last(),
            products,
        ) {
            1nat
        } else {
            0nat
        }
    }
}

/// The texts of `v` as plain values.
pub open spec fn texts(v: Seq<Vec<u8>>) -> Seq<Seq<u8>> {
    Seq::new(v.len(), |i: int| v[i]@)
}

/// The lists of texts of `v` as plain values.
pub open spec fn tables(v: Seq<Vec<Vec<u8>>>) -> Seq<Seq<Seq<u8>>> {
    Seq::new(v.len(), |i: int| texts(v[i]@))
}

/// A text always splits into at least one piece.
pub proof fn lemma_split_is_not_empty(text: Seq<u8>, sep: u8)
    ensures
        split_spec(text, sep).len() >= 1,
    decreases text.len(),
{
    if text.len() > 0 {
        lemma_split_is_not_empty(text.drop_first(), sep);
    }
}

/// No piece of a split text holds the separator.
pub proof fn lemma_split_pieces_hold_no_separator(text: Seq<u8>, sep: u8)
    ensures
        forall|i: int|
            0 <= i < split_spec(text, sep).len() ==> !(#[trigger] split_spec(text, sep)[i]).contains(
                sep,
            ),
    decreases text.len(),
{
    let pieces = split_spec(text, sep);
    if text.len() > 0 {
        let rest = split_spec(text.drop_first(), sep);
        lemma_split_pieces_hold_no_separator(text.drop_first(), sep);
        lemma_split_is_not_empty(text.drop_first(), sep);
        assert forall|i: int| 0 <= i < pieces.len() implies !(#[trigger] pieces[i]).contains(
            sep,
        ) by {
            if text[0] == sep {
                if i > 0 {
                    assert(pieces[i] == rest[i - 1]);
                }
            } else if i == 0 {
                let first = seq![text[0]] + rest[0];
                if first.contains(sep) {
                    let k = choose|k: int| 0 <= k < first.len() && first[k] == sep;
                    assert(rest[0][k - 1] == sep);
                    assert(rest[0].contains(sep));
                }
            } else {
                assert(pieces[i] == rest[i]);
            }
        }
    }
}

/// Putting the separator back between the pieces of a split text gives the text.
pub proof fn lemma_join_of_split(text: Seq<u8>, sep: u8)
    ensures
        join_spec(split_spec(text, sep), sep) == text,
    decreases text.len(),
{
    let pieces = split_spec(text, sep);
    if text.len() > 0 {
        let tail = text.drop_first();
        let rest = split_spec(tail, sep);
        lemma_join_of_split(tail, sep);
        lemma_split_is_not_empty(tail, sep);
        if text[0] == sep {
            assert(pieces.drop_first() =~= rest);
            if rest.len() == 1 {
                assert(join_spec(pieces, sep) =~= text);
            } else {
                assert(join_spec(pieces, sep) =~= text);
            }
        } else if rest.len() == 1 {
            assert(join_spec(pieces, sep) =~= text);
        } else {
            assert(pieces.drop_first() =~= rest.drop_first());
            assert(join_spec(pieces, sep) =~= seq![text[0]] + join_spec(rest, sep));
            assert(join_spec(pieces, sep) =~= text);
        }
    } else {
        assert(join_spec(pieces, sep) =~= text);
    }
}

/// Splits `text` at every occurrence of `sep`.
pub fn split(text: &Vec<u8>, sep: u8) -> (r: Vec<Vec<u8>>)
    ensures
        texts(r@) == split_spec(text@, sep),
{
    let mut done: Vec<Vec<u8>> = Vec::new();
    let mut piece: Vec<u8> = Vec::new();
    let mut i: usize = 0;
    proof {
        lemma_split_is_not_empty(text@, sep);
        assert(text@.skip(0) =~= text@);
        let rest = split_spec(text@, sep);
        assert(texts(done@) + rest.update(0, piece@ + rest[0]) =~= rest);
    }
    while i < text.len()
        invariant
            i <= text.len(),
            split_spec(text@, sep) == texts(done@) + split_spec(text@.skip(i as int), sep).update(
                0,
                piece@ + split_spec(text@.skip(i as int), sep)[0],
            ),
        decreases text.len() - i,
    {
        let ghost here = split_spec(text@.skip(i as int), sep);
        let ghost rest = split_spec(text@.skip(i + 1), sep);
        let ghost before = texts(done@);
        let ghost held = piece@;
        proof {
            assert(text@.skip(i as int).drop_first() =~= text@.skip(i + 1));
            lemma_split_is_not_empty(text@.skip(i + 1), sep);
        }
        if text[i] == sep {
            done.push(piece);
            piece = Vec::new();
            proof {
                assert(text@.skip(i as int)[0] == sep);
                assert(here == seq![Seq::<u8>::empty()] + rest);
                assert(texts(done@) =~= before.push(held));
                assert(before + here.update(0, held + here[0]) =~= texts(done@) + rest.update(
                    0,
                    piece@ + rest[0],
                ));
            }
        } else {
            piece.push(text[i]);
            proof {
                let byte = text@[i as int];
                assert(text@.skip(i as int)[0] == byte);
                assert(here == rest.update(0, seq![byte] + rest[0]));
                assert(held + (seq![byte] + rest[0]) =~= piece@ + rest[0]);
                assert(here.update(0, held + here[0]) =~= rest.update(0, piece@ + rest[0]));
            }
        }
        i += 1;
    }
    proof {
        assert(text@.skip(i as int) =~= Seq::<u8>::empty());
        let last = split_spec(text@.skip(i as int), sep);
        assert(last.update(0, piece@ + last[0]) =~= seq![piece@]);
    }
    let ghost before = texts(done@);
    let ghost held = piece@;
    done.push(piece);
    assert(texts(done@) =~= before + seq![held]);
    done
}

/// Reads the transactions out of `text`: one for each line after the first, up to the first
/// empty line, each with the products that the commas of the line part.
pub fn parse_transactions(text: &Vec<u8>) -> (r: Vec<Vec<Vec<u8>>>)
    ensures
        tables(r@) == transactions_spec(text@),
{
    let lines: Vec<Vec<u8>> = split(text, LINE_END);
    let ghost all = split_spec(text@, LINE_END).drop_first();
    let mut transactions: Vec<Vec<Vec<u8>>> = Vec::new();
    let mut i: usize = 1;
    proof {
        lemma_split_is_not_empty(text@, LINE_END);
        assert(all.skip(0) =~= all);
    }
    while i < lines.len() && lines[i].len() > 0
        invariant
            1 <= i <= lines.len(),
            texts(lines@) == split_spec(text@, LINE_END),
            all == split_spec(text@, LINE_END).drop_first(),
            transactions@.len() == i - 1,
            leading_lines(all) == all.take(i - 1) + leading_lines(all.skip(i - 1)),
            forall|k: int|
                0 <= k < i - 1 ==> texts(#[trigger] transactions@[k]@) == split_spec(
                    all[k],
                    FIELD_END,
                ),
        decreases lines.len() - i,
    {
        proof {
            assert(all[i - 1] == texts(lines@)[i as int]);
            assert(all.skip(i - 1)[0] == all[i - 1]);
            assert(all.skip(i - 1).drop_first() =~= all.skip(i as int));
            assert(all.take(i - 1) + (seq![all[i - 1]] + leading_lines(all.skip(i as int)))
                =~= all.take(i as int) + leading_lines(all.skip(i as int)));
        }
        transactions.push(split(&lines[i], FIELD_END));
        i += 1;
    }
    proof {
        if i < lines.len() {
            assert(all.skip(i - 1)[0] == texts(lines@)[i as int]);
        }
        assert(leading_lines(all.skip(i - 1)) =~= Seq::<Seq<u8>>::empty());
        assert(leading_lines(all) =~= all.take(i - 1));
        assert(tables(transactions@) =~= transactions_spec(text@));
    }
    transactions
}

/// Whether `a` and `b` hold the same bytes.
fn same_text(a: &Vec<u8>, b: &Vec<u8>) -> (r: bool)
    ensures
        r == (a@ == b@),
{
    if a.len() != b.len() {
        return false;
    }
    let mut i: usize = 0;
    while i < a.len()
        invariant
            a.len() == b.len(),
            i <= a.len(),
            forall|k: int| 0 <= k < i ==> a@[k] == b@[k],
        decreases a.len() - i,
    {
        if a[i] != b[i] {
            return false;
        }
        i += 1;
    }
    assert(a@ =~= b@);
    true
}

/// Whether `product` is among the products of `transaction`.
pub fn holds(transaction: &Vec<Vec<u8>>, product: &Vec<u8>) -> (r: bool)
    ensures
        r == texts(transaction@).contains(product@),
{
    let mut i: usize = 0;
    while i < transaction.len()
        invariant
            i <= transaction.len(),
            forall|k: int| 0 <= k < i ==> texts(transaction@)[k] != product@,
        decreases transaction.len() - i,
    {
        if same_text(&transaction[i], product) {
            assert(texts(transaction@)[i as int] == product@);
            return true;
        }
        i += 1;
    }
    false
}

/// Whether every product of `products` is among the products of `transaction`.
pub fn holds_every(transaction: &Vec<Vec<u8>>, products: &Vec<Vec<u8>>) -> (r: bool)
    ensures
        r == holds_all(texts(transaction@), texts(products@)),
{
    let mut i: usize = 0;
    while i < products.len()
        invariant
            i <= products.len(),
            forall|k: int|
                0 <= k < i ==> texts(transaction@).contains(#[trigger] texts(products@)[k]),
        decreases products.len() - i,
    {
        if !holds(transaction, &products[i]) {
            assert(!texts(transaction@).contains(texts(products@)[i as int]));
            return false;
        }
        i += 1;
    }
    true
}

/// Counts the transactions that hold every product of `products`.
pub fn support_count(products: &Vec<Vec<u8>>, transactions: &Vec<Vec<Vec<u8>>>) -> (r: usize)
    ensures
        r == support_count_spec(texts(products@), tables(transactions@)),
        r <= transactions.len(),
{
    let mut count: usize = 0;
    let mut i: usize = 0;
    while i < transactions.len()
        invariant
            i <= transactions.len(),
            count <= i,
            count == support_count_spec(texts(products@), tables(transactions@).take(i as int)),
        decreases transactions.len() - i,
    {
        proof {
            let all = tables(transactions@);
            assert(all.take(i + 1).drop_last() =~= all.take(i as int));
            assert(all.take(i + 1).last() == texts(transactions@[i as int]@));
        }
        if holds_every(&transactions[i], products) {
            count += 1;
        }
        i += 1;
    }
    assert(tables(transactions@).take(i as int) =~= tables(transactions@));
    count
}

} // verus!
