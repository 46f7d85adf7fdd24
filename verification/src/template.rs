//! The template: a vector drawing whose `image` tags refer to the poster's
//! elements by id. The references of the elements that the poster holds are
//! replaced by the places of the rendered images.

use crate::plakat::Registry;
use vstd::prelude::*;

verus! {

/// An attribute of a tag.
#[derive(Debug)]
pub struct Attribute {
    pub prefix: Option<String>,
    pub name: String,
    pub value: String,
}

/// An opening tag with its attributes.
#[derive(Debug)]
pub struct Tag {
    pub name: String,
    pub attributes: Vec<Attribute>,
}

/// An attribute as a mathematical value.
pub struct AttributeText {
    pub prefix: Option<Seq<char>>,
    pub name: Seq<char>,
    pub value: Seq<char>,
}

/// A tag as a mathematical value.
pub struct TagText {
    pub name: Seq<char>,
    pub attributes: Seq<AttributeText>,
}

/// An image tag's id and the reference that stands in the tag.
#[derive(Debug)]
pub struct Link {
    pub id: String,
    pub href: String,
}

/// A link as a mathematical value.
pub struct LinkText {
    pub id: Seq<char>,
    pub href: Seq<char>,
}

impl View for Attribute {
    type V = AttributeText;

    open spec fn view(&self) -> AttributeText {
        AttributeText {
            prefix: match self.prefix {
                Some(prefix) => Some(prefix@),
                None => None,
            },
            name: self.name@,
            value: self.value@,
        }
    }
}

/// The attributes of a vector of attributes.
pub open spec fn attributes_view(attributes: Seq<Attribute>) -> Seq<AttributeText> {
    Seq::new(attributes.len(), |i: int| attributes[i]@)
}

impl View for Tag {
    type V = TagText;

    open spec fn view(&self) -> TagText {
        TagText { name: self.name@, attributes: attributes_view(self.attributes@) }
    }
}

/// The tags of a vector of tags.
pub open spec fn tags_view(tags: Seq<Tag>) -> Seq<TagText> {
    Seq::new(tags.len(), |i: int| tags[i]@)
}

impl View for Link {
    type V = LinkText;

    open spec fn view(&self) -> LinkText {
        LinkText { id: self.id@, href: self.href@ }
    }
}

/// The links of a vector of links.
pub open spec fn links_view(links: Seq<Link>) -> Seq<LinkText> {
    Seq::new(links.len(), |i: int| links[i]@)
}

/// The opening tags that the `xml` crate reads out of a document, in the
/// document's order, up to the first place where it fails.
pub uninterp spec fn xml_start_tags(document: Seq<u8>) -> Seq<TagText>;

/// Walks the events of `xml::reader::EventReader` over a document in memory
/// and keeps the opening tags: the local name of each, and of each of its
/// attributes the prefix, the local name and the value. The walk ends at the
/// first error. The contract gives what comes back a name and claims nothing
/// of it but that it depends on the document's bytes alone.
#[verifier::external_body]
fn read_start_tags(document: &[u8]) -> (tags: Vec<Tag>)
    ensures
        tags_view(tags@) == xml_start_tags(document@),
{
    let mut tags = Vec::new();
    for event in xml::reader::EventReader::new(document) {
        match event {
            Ok(xml::reader::XmlEvent::StartElement { name, attributes, .. }) => {
                let attributes = attributes.into_iter().map(|a| Attribute { prefix: a.name.prefix, name: a.name.local_name, value: a.value }).collect();
                tags.push(Tag { name: name.local_name, attributes });
            },
            Err(_) => break,
            _ => {},
        }
    }
    tags
}

/// The opening tags of a document, up to the first place where it cannot be
/// read.
pub fn start_tags(document: &[u8]) -> (tags: Vec<Tag>)
    ensures
        tags_view(tags@) == xml_start_tags(document@),
{
    read_start_tags(document)
}

/// The attribute gives its tag's id: its local name is `id`.
pub open spec fn is_id(attribute: AttributeText) -> bool {
    attribute.name == "id"@
}

/// The attribute gives its tag's reference: it is `xlink:href`.
pub open spec fn is_href(attribute: AttributeText) -> bool {
    attribute.prefix == Some("xlink"@) && attribute.name == "href"@
}

/// The value of the last id among `attributes`.
pub open spec fn last_id(attributes: Seq<AttributeText>) -> Option<Seq<char>>
    decreases attributes.len(),
{
    if attributes.len() == 0 {
        None
    } else if is_id(attributes.last()) {
        Some(attributes.last().value)
    } else {
        last_id(attributes.drop_last())
    }
}

/// The value of the last reference among `attributes`.
pub open spec fn last_href(attributes: Seq<AttributeText>) -> Option<Seq<char>>
    decreases attributes.len(),
{
    if attributes.len() == 0 {
        None
    } else if is_href(attributes.last()) {
        Some(attributes.last().value)
    } else {
        last_href(attributes.drop_last())
    }
}

/// The link of a tag: an `image` tag with an id and a reference has one,
/// made of the last of each; no other tag has.
pub open spec fn spec_image_link(tag: TagText) -> Option<LinkText> {
    if tag.name == "image"@ && last_id(tag.attributes) is Some && last_href(tag.attributes)
        is Some {
        Some(
            LinkText {
                id: last_id(tag.attributes).unwrap(),
                href: last_href(tag.attributes).unwrap(),
            },
        )
    } else {
        None
    }
}

/// The view of an optional link.
pub open spec fn optional_link_view(link: Option<Link>) -> Option<LinkText> {
    match link {
        Some(link) => Some(link@),
        None => None,
    }
}

/// The link of a tag, if it has one.
pub fn image_link(tag: &Tag) -> (link: Option<Link>)
    ensures
        optional_link_view(link) == spec_image_link(tag@),
{
    let image = String::from_str("image");
    if !(tag.name == image) {
        return None;
    }
    let id_name = String::from_str("id");
    let href_name = String::from_str("href");
    let xlink = String::from_str("xlink");
    proof {
        reveal_strlit("id");
        reveal_strlit("href");
        assert("id"@.len() != "href"@.len());
    }
    let ghost all = attributes_view(tag.attributes@);
    let mut id: Option<String> = None;
    let mut href: Option<String> = None;
    let n: usize = tag.attributes.len();
    let mut i: usize = 0;
    assert(all.take(0).len() == 0);
    while i < n
        invariant
            n == tag.attributes@.len(),
            i <= n,
            all == attributes_view(tag.attributes@),
            id_name@ == "id"@,
            href_name@ == "href"@,
            xlink@ == "xlink"@,
            "id"@ != "href"@,
            match id {
                Some(id) => last_id(all.take(i as int)) == Some(id@),
                None => last_id(all.take(i as int)) is None,
            },
            match href {
                Some(href) => last_href(all.take(i as int)) == Some(href@),
                None => last_href(all.take(i as int)) is None,
            },
        decreases n - i,
    {
        let attribute: &Attribute = &tag.attributes[i];
        proof {
            assert(all.take(i + 1).drop_last() =~= all.take(i as int));
            assert(all.take(i + 1).last() == attribute@);
        }
        if attribute.name == id_name {
            id = Some(attribute.value.clone());
        } else {
            let prefixed: bool = match &attribute.prefix {
                Some(prefix) => *prefix == xlink,
                None => false,
            };
            if prefixed && attribute.name == href_name {
                href = Some(attribute.value.clone());
            }
        }
        i = i + 1;
    }
    assert(all.take(n as int) =~= all);
    match (id, href) {
        (Some(id), Some(href)) => Some(Link { id, href }),
        _ => None,
    }
}

/// Puts a link among others: in the place of the first link of the same
/// id, or behind all links where there is none.
pub open spec fn put_link(links: Seq<LinkText>, link: LinkText) -> Seq<LinkText>
    decreases links.len(),
{
    if links.len() == 0 {
        seq![link]
    } else if links.first().id == link.id {
        seq![link] + links.drop_first()
    } else {
        seq![links.first()] + put_link(links.drop_first(), link)
    }
}

/// The links that are to be changed: one for every id that names an element
/// of the poster and stands in an image tag with a reference. The link of
/// an id is that of the last such tag; the links stand in the order in
/// which their ids first come up.
pub open spec fn spec_links(tags: Seq<TagText>, known: Set<Seq<char>>) -> Seq<LinkText>
    decreases tags.len(),
{
    if tags.len() == 0 {
        Seq::<LinkText>::empty()
    } else {
        let before = spec_links(tags.drop_last(), known);
        match spec_image_link(tags.last()) {
            Some(link) => if known.contains(link.id) {
                put_link(before, link)
            } else {
                before
            },
            None => before,
        }
    }
}

/// No id stands in two links.
pub open spec fn distinct_links(links: Seq<LinkText>) -> bool {
    forall|i: int, j: int|
        0 <= i < j < links.len() ==> (#[trigger] links[i]).id != (#[trigger] links[j]).id
}

/// A link whose id is new goes behind all links.
pub proof fn lemma_put_new_link(links: Seq<LinkText>, link: LinkText)
    requires
        forall|j: int| 0 <= j < links.len() ==> (#[trigger] links[j]).id != link.id,
    ensures
        put_link(links, link) == links.push(link),
    decreases links.len(),
{
    if links.len() > 0 {
        let rest = links.drop_first();
        assert(links[0].id != link.id);
        assert forall|j: int| 0 <= j < rest.len() implies (#[trigger] rest[j]).id != link.id by {
            assert(rest[j] == links[j + 1]);
        }
        lemma_put_new_link(rest, link);
        assert(seq![links.first()] + rest.push(link) =~= links.push(link));
    } else {
        assert(seq![link] =~= links.push(link));
    }
}

/// A link goes to the place of the first link of its id.
pub proof fn lemma_put_known_link(links: Seq<LinkText>, link: LinkText, i: int)
    requires
        0 <= i < links.len(),
        links[i].id == link.id,
        forall|j: int| 0 <= j < i ==> (#[trigger] links[j]).id != link.id,
    ensures
        put_link(links, link) == links.update(i, link),
    decreases links.len(),
{
    let rest = links.drop_first();
    if i == 0 {
        assert(seq![link] + rest =~= links.update(0, link));
    } else {
        assert(links[0].id != link.id);
        assert forall|j: int| 0 <= j < i - 1 implies (#[trigger] rest[j]).id != link.id by {
            assert(rest[j] == links[j + 1]);
        }
        assert(rest[i - 1] == links[i]);
        lemma_put_known_link(rest, link, i - 1);
        assert(seq![links.first()] + rest.update(i - 1, link) =~= links.update(i, link));
    }
}

/// Picks the links that are to be changed out of a document's tags.
pub fn links_to_change(tags: &Vec<Tag>, elements: &Registry) -> (links: Vec<Link>)
    requires
        elements.wf(),
    ensures
        links_view(links@) == spec_links(tags_view(tags@), elements@.dom()),
        distinct_links(links_view(links@)),
{
    let ghost all = tags_view(tags@);
    let ghost known = elements@.dom();
    let mut links: Vec<Link> = Vec::new();
    let n: usize = tags.len();
    let mut i: usize = 0;
    assert(all.take(0).len() == 0);
    assert(links_view(links@) =~= spec_links(all.take(0), known));
    while i < n
        invariant
            n == tags@.len(),
            i <= n,
            elements.wf(),
            all == tags_view(tags@),
            known == elements@.dom(),
            links_view(links@) == spec_links(all.take(i as int), known),
            distinct_links(links_view(links@)),
        decreases n - i,
    {
        proof {
            assert(all.take(i + 1).drop_last() =~= all.take(i as int));
            assert(all.take(i + 1).last() == tags@[i as int]@);
        }
        let ghost earlier = links_view(links@);
        match image_link(&tags[i]) {
            Some(link) => {
                if elements.contains_key(&link.id) {
                    let ghost text = link@;
                    let m: usize = links.len();
                    let mut k: usize = 0;
                    let mut place: Option<usize> = None;
                    while k < m && place.is_none()
                        invariant
                            m == links@.len(),
                            k <= m,
                            text == link@,
                            earlier == links_view(links@),
                            forall|j: int| 0 <= j < k ==> (#[trigger] earlier[j]).id != text.id,
                            place matches Some(p) ==> p == k && k < m && earlier[k as int].id
                                == text.id,
                        decreases m - k + (if place is None { 1int } else { 0int }),
                    {
                        assert(earlier[k as int] == links@[k as int]@);
                        if links[k].id == link.id {
                            place = Some(k);
                        } else {
                            k = k + 1;
                        }
                    }
                    match place {
                        Some(p) => {
                            proof {
                                lemma_put_known_link(earlier, text, p as int);
                            }
                            links.set(p, link);
                            proof {
                                let now = links_view(links@);
                                assert(now =~= earlier.update(p as int, text));
                                assert forall|a: int, b: int| 0 <= a < b < now.len() implies (
                                #[trigger] now[a]).id != (#[trigger] now[b]).id by {
                                    assert(earlier[a].id != earlier[b].id);
                                }
                            }
                        },
                        None => {
                            proof {
                                lemma_put_new_link(earlier, text);
                            }
                            links.push(link);
                            proof {
                                let now = links_view(links@);
                                assert(now =~= earlier.push(text));
                                assert forall|a: int, b: int| 0 <= a < b < now.len() implies (
                                #[trigger] now[a]).id != (#[trigger] now[b]).id by {
                                    if b < earlier.len() {
                                        assert(earlier[a].id != earlier[b].id);
                                    } else {
                                        assert(earlier[a].id != text.id);
                                    }
                                }
                            }
                        },
                    }
                }
            },
            None => {},
        }
        i = i + 1;
    }
    assert(all.take(n as int) =~= all);
    links
}

/// What a text becomes when every match of `from` is replaced by `to`. The
/// matches are taken from the front and do not overlap. An empty `from`
/// matches before every character and at the end.
pub open spec fn replaced(text: Seq<char>, from: Seq<char>, to: Seq<char>) -> Seq<char>
    decreases text.len(),
{
    if from.len() == 0 {
        if text.len() == 0 {
            to
        } else {
            to + seq![text.first()] + replaced(text.drop_first(), from, to)
        }
    } else if text.len() < from.len() {
        text
    } else if text.take(from.len() as int) == from {
        to + replaced(text.skip(from.len() as int), from, to)
    } else {
        seq![text.first()] + replaced(text.drop_first(), from, to)
    }
}

/// `from` stands nowhere in `text`.
pub open spec fn stands_nowhere(text: Seq<char>, from: Seq<char>) -> bool {
    forall|i: int|
        0 <= i <= text.len() - from.len() ==> #[trigger] text.subrange(i, i + from.len()) != from
}

/// A text in which the reference does not stand stays as it is.
pub proof fn lemma_replaced_without_match(text: Seq<char>, from: Seq<char>, to: Seq<char>)
    requires
        from.len() > 0,
        stands_nowhere(text, from),
    ensures
        replaced(text, from, to) == text,
    decreases text.len(),
{
    if text.len() >= from.len() {
        let n = from.len() as int;
        assert(text.take(n) =~= text.subrange(0, 0 + n));
        let rest = text.drop_first();
        assert forall|i: int| 0 <= i <= rest.len() - n implies #[trigger] rest.subrange(i, i + n)
            != from by {
            assert(rest.subrange(i, i + n) =~= text.subrange(i + 1, i + 1 + n));
        }
        lemma_replaced_without_match(rest, from, to);
        assert(seq![text.first()] + rest =~= text);
    }
}

/// Calls `str::replace`. The claim: every match of `from` in the text gives
/// way to `to`, where the matches are found from the front and do not
/// overlap, and an empty `from` is found before every character and at the
/// end.
#[verifier::external_body]
fn replace_all(text: &str, from: &str, to: &str) -> (changed: String)
    ensures
        changed@ == replaced(text@, from@, to@),
{
    text.replace(from, to)
}

/// A reference in the template and the place that is to stand for it.
#[derive(Debug)]
pub struct Replacement {
    pub old: String,
    pub new: String,
}

/// The template after the first `n` replacements, one after the other.
pub open spec fn spec_patched(template: Seq<char>, replacements: Seq<Replacement>, n: int) -> Seq<
    char,
>
    decreases n,
{
    if n <= 0 {
        template
    } else {
        replaced(
            spec_patched(template, replacements, n - 1),
            replacements[n - 1].old@,
            replacements[n - 1].new@,
        )
    }
}

/// Carries out the replacements on the template, in their order.
pub fn patch(template: &str, replacements: &Vec<Replacement>) -> (patched: String)
    ensures
        patched@ == spec_patched(template@, replacements@, replacements@.len() as int),
{
    let mut patched = String::from_str(template);
    let n: usize = replacements.len();
    let mut i: usize = 0;
    while i < n
        invariant
            n == replacements@.len(),
            i <= n,
            patched@ == spec_patched(template@, replacements@, i as int),
        decreases n - i,
    {
        patched = replace_all(
            patched.as_str(),
            replacements[i].old.as_str(),
            replacements[i].new.as_str(),
        );
        i = i + 1;
    }
    patched
}

} // verus!
