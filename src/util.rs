//! Small helpers around the stream: credentials, the body wrapper and joining
//! strings.
use vstd::prelude::*;

verus! {

/// A key and its secret.
#[derive(Clone, Debug, Eq, PartialEq, Hash)]
pub struct Token<'a>(pub &'a str, pub &'a str);

/// Holds an HTTP response body, which its owner polls for chunks of bytes.
pub struct HttpBodyAsStream<B> {
    pub inner: B,
}

impl<B> HttpBodyAsStream<B> {
    pub fn new(inner: B) -> (r: Self)
        ensures
            r.inner == inner,
    {
        HttpBodyAsStream { inner }
    }
}

/// The items in order, with `sep` between each two neighbours.
pub open spec fn join(items: Seq<Seq<char>>, sep: Seq<char>) -> Seq<char>
    decreases items.len(),
{
    if items.len() == 0 {
        Seq::empty()
    } else if items.len() == 1 {
        items[0]
    } else {
        join(items.drop_last(), sep) + sep + items.last()
    }
}

/// Joins the strings of `t` with `sep` between each two neighbours.
pub fn fmt_join(t: &[String], sep: &str) -> (r: String)
    ensures
        r@ == join(t@.map_values(|s: String| s@), sep@),
{
    let ghost items = t@.map_values(|s: String| s@);
    if t.len() == 0 {
        return String::new();
    }
    let mut r = t[0].clone();
    assert(items.take(1) =~= seq![items[0]]);
    let mut i: usize = 1;
    while i < t.len()
        invariant
            1 <= i <= t@.len(),
            items == t@.map_values(|s: String| s@),
            r@ == join(items.take(i as int), sep@),
        decreases t@.len() - i,
    {
        r.append(sep);
        r.append(t[i].as_str());
        assert(items.take(i + 1).drop_last() =~= items.take(i as int));
        i = i + 1;
    }
    assert(items.take(i as int) =~= items);
    r
}

} // verus!
