use vstd::prelude::*;
use crate::address::{domain_root_spec, resolve_link, resolve_spec, Address};
use crate::crawl::CrawlError;

verus! {

/// One attribute of a tag, with its raw value.
pub struct Attribute {
    pub name: String,
    pub value: Vec<u8>,
}

/// One tag event of the tokenizer: a start or an end tag, its name and
/// its attributes in document order.
pub struct Tag {
    pub start: bool,
    pub name: String,
    pub attrs: Vec<Attribute>,
}

/// What `String::from_utf8_lossy` makes of `b`: invalid sequences replaced.
pub uninterp spec fn lossy_text(b: Seq<u8>) -> Seq<char>;

/// Relies on `String::from_utf8_lossy`, which replaces invalid sequences
/// instead of failing.
#[verifier::external_body]
fn decode_lossy(b: &[u8]) -> (r: String)
    ensures
        r@ == lossy_text(b@),
{
    String::from_utf8_lossy(b).into_owned()
}

/// The decoded values of the `href` attributes among `attrs`, in order.
pub open spec fn href_values(attrs: Seq<Attribute>) -> Seq<Seq<char>>
    decreases attrs.len(),
{
    if attrs.len() == 0 {
        seq![]
    } else {
        let init = href_values(attrs.drop_last());
        let last = attrs.last();
        if last.name@ == seq!['h', 'r', 'e', 'f'] {
            init.push(lossy_text(last.value@))
        } else {
            init
        }
    }
}

/// The raw link references that one tag contributes: the `href` values of
/// an `a` start tag, none for any other tag.
pub open spec fn tag_links(tag: &Tag) -> Seq<Seq<char>> {
    if tag.start && tag.name@ == seq!['a'] {
        href_values(tag.attrs@)
    } else {
        seq![]
    }
}

/// The texts of a sequence of strings.
pub open spec fn texts(v: Seq<String>) -> Seq<Seq<char>> {
    v.map_values(|s: String| s@)
}

/// The texts of a sequence of addresses.
pub open spec fn addresses(v: Seq<Address>) -> Seq<Seq<char>> {
    v.map_values(|a: Address| a@)
}

/// The raw link references collected from a page, in document order.
pub struct LinkQueue {
    pub links: Vec<String>,
}

impl LinkQueue {
    pub fn new() -> (r: LinkQueue)
        ensures
            r.links@.len() == 0,
    {
        LinkQueue { links: Vec::new() }
    }

    /// Takes in one tag event: appends the references that it contributes.
    pub fn process_token(&mut self, tag: &Tag)
        ensures
            texts(final(self).links@) == texts(old(self).links@) + tag_links(tag),
    {
        let ghost start = texts(self.links@);
        let a_name = "a".to_owned();
        let href_name = "href".to_owned();
        proof {
            reveal_strlit("a");
            reveal_strlit("href");
            assert(a_name@ =~= seq!['a']);
            assert(href_name@ =~= seq!['h', 'r', 'e', 'f']);
        }
        if tag.start && tag.name == a_name {
            let mut i: usize = 0;
            while i < tag.attrs.len()
                invariant
                    i <= tag.attrs@.len(),
                    href_name@ == seq!['h', 'r', 'e', 'f'],
                    texts(self.links@) == start + href_values(tag.attrs@.take(i as int)),
                decreases tag.attrs@.len() - i,
            {
                let attr = &tag.attrs[i];
                assert(tag.attrs@.take(i + 1).drop_last() == tag.attrs@.take(i as int));
                if attr.name == href_name {
                    let text = decode_lossy(attr.value.as_slice());
                    let ghost before = self.links@;
                    self.links.push(text);
                    assert(self.links@.drop_last() == before);
                    assert(tag.attrs@.take(i + 1).last() == tag.attrs@[i as int]);
                    assert(texts(self.links@) =~= texts(before).push(text@));
                    assert(texts(self.links@) =~= start + href_values(tag.attrs@.take(i + 1)));
                }
                i = i + 1;
            }
            assert(tag.attrs@.take(tag.attrs@.len() as int) == tag.attrs@);
        } else {
            assert(texts(self.links@) =~= start + tag_links(tag));
        }
    }
}

/// The addresses that `hrefs` resolve to against `root`; `None` where one
/// of them is malformed.
pub open spec fn resolve_all(root: Seq<char>, hrefs: Seq<Seq<char>>) -> Option<Seq<Seq<char>>>
    decreases hrefs.len(),
{
    if hrefs.len() == 0 {
        Some(seq![])
    } else {
        match (resolve_all(root, hrefs.drop_last()), resolve_spec(root, hrefs.last())) {
            (Some(s), Some(t)) => Some(s.push(t)),
            _ => None,
        }
    }
}

/// All references resolve exactly when each of them does.
pub proof fn lemma_resolve_all_some(root: Seq<char>, hrefs: Seq<Seq<char>>)
    ensures
        resolve_all(root, hrefs) is Some <==> forall|j: int|
            0 <= j < hrefs.len() ==> (#[trigger] resolve_spec(root, hrefs[j])) is Some,
    decreases hrefs.len(),
{
    if hrefs.len() > 0 {
        lemma_resolve_all_some(root, hrefs.drop_last());
        if resolve_all(root, hrefs) is Some {
            assert forall|j: int| 0 <= j < hrefs.len() implies (#[trigger] resolve_spec(
                root,
                hrefs[j],
            )) is Some by {
                if j < hrefs.len() - 1 {
                    assert(hrefs.drop_last()[j] == hrefs[j]);
                }
            }
        } else if resolve_all(root, hrefs.drop_last()) is None {
            let j = choose|j: int|
                0 <= j < hrefs.drop_last().len() && !(resolve_spec(
                    root,
                    #[trigger] hrefs.drop_last()[j],
                ) is Some);
            assert(hrefs.drop_last()[j] == hrefs[j]);
        }
    }
}

/// Extraction of the next frontier from the links found on the page at
/// `base`: each reference resolved against the domain root of `base`, in
/// order and with duplicates kept; the first malformed one fails the whole
/// extraction.
pub fn get_links(base: &Address, links: &Vec<String>) -> (r: Result<Vec<Address>, CrawlError>)
    ensures
        match r {
            Ok(v) => resolve_all(domain_root_spec(base@), texts(links@)) == Some(addresses(v@)),
            Err(e) => resolve_all(domain_root_spec(base@), texts(links@)) is None && exists|i: int|
                0 <= i < links@.len() && resolve_spec(domain_root_spec(base@), links@[i]@) is None
                    && (forall|j: int|
                    0 <= j < i ==> (#[trigger] resolve_spec(domain_root_spec(base@), links@[j]@)) is Some)
                    && e == CrawlError::MalformedLink { href: links@[i] },
        },
{
    let root = base.domain_root();
    let ghost hrefs = texts(links@);
    let mut out: Vec<Address> = Vec::new();
    let mut i: usize = 0;
    while i < links.len()
        invariant
            i <= links@.len(),
            hrefs == texts(links@),
            root@ == domain_root_spec(base@),
            resolve_all(root@, hrefs.take(i as int)) == Some(addresses(out@)),
        decreases links@.len() - i,
    {
        assert(hrefs.take(i + 1).drop_last() == hrefs.take(i as int));
        match resolve_link(&root, links[i].as_str()) {
            Some(a) => {
                out.push(a);
                assert(addresses(out@) == addresses(out@.drop_last()).push(out@.last()@));
            },
            None => {
                proof {
                    lemma_resolve_all_some(root@, hrefs.take(i as int));
                    lemma_resolve_all_some(root@, hrefs);
                    assert forall|j: int| 0 <= j < i implies (#[trigger] resolve_spec(
                        root@,
                        links@[j]@,
                    )) is Some by {
                        assert(hrefs.take(i as int)[j] == links@[j]@);
                    }
                    assert(hrefs[i as int] == links@[i as int]@);
                }
                return Err(CrawlError::MalformedLink { href: links[i].clone() });
            },
        }
        i = i + 1;
    }
    assert(hrefs.take(links@.len() as int) == hrefs);
    Ok(out)
}

} // verus!
