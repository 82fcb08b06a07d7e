//! The feed parser: decodes one RSS dialect from raw feed text. A document
//! is a `<channel>` block holding a title, a description, an optional
//! `<image>` block, and a run of `<item>` blocks; every field of an item
//! is optional and defaults to the empty string. Only a document with no
//! channel block is rejected. Publish dates are normalized to
//! `YYYY-MM-DD HH:MM:SS` where they parse as RFC-2822 dates, and fall back
//! to the empty string where they do not.

use vstd::prelude::*;
use crate::errors::RssParsingError;
use crate::strings::find_from;
use crate::strings::lemma_find_from;
use crate::strings::find_str_from;

verus! {

/// The mathematical content of a parsed feed item.
pub ghost struct ItemModel {
    pub title: Seq<char>,
    pub link: Seq<char>,
    pub publish_date: Seq<char>,
}

/// The mathematical content of a channel's image block.
pub ghost struct ImageModel {
    pub url: Seq<char>,
    pub title: Seq<char>,
    pub link: Seq<char>,
}

/// The mathematical content of a parsed feed.
pub ghost struct RssModel {
    pub title: Seq<char>,
    pub description: Seq<char>,
    pub image: Option<ImageModel>,
    pub items: Seq<ItemModel>,
}

/// The content range between the first occurrence of the opening tag at
/// or after `from` and the first closing tag after it, if both occur.
pub open spec fn tag_block(s: Seq<char>, ot: Seq<char>, ct: Seq<char>, from: int) -> Option<
    (int, int),
> {
    match find_from(s, ot, from) {
        Option::None => Option::None,
        Option::Some(o) => match find_from(s, ct, o + ot.len()) {
            Option::None => Option::None,
            Option::Some(c) => Option::Some((o + ot.len(), c)),
        },
    }
}

/// The text of the first such tag block, or the empty string when the
/// tag is absent: a missing field is not an error.
pub open spec fn tag_text(s: Seq<char>, ot: Seq<char>, ct: Seq<char>) -> Seq<char> {
    match tag_block(s, ot, ct, 0) {
        Option::None => Seq::empty(),
        Option::Some((a, b)) => s.subrange(a, b),
    }
}

/// What an item block's content means: its three optional fields.
pub open spec fn item_of(c: Seq<char>) -> ItemModel {
    ItemModel {
        title: tag_text(c, "<title>"@, "</title>"@),
        link: tag_text(c, "<link>"@, "</link>"@),
        publish_date: tag_text(c, "<publish_date>"@, "</publish_date>"@),
    }
}

/// What an image block's content means.
pub open spec fn image_of(c: Seq<char>) -> ImageModel {
    ImageModel {
        url: tag_text(c, "<url>"@, "</url>"@),
        title: tag_text(c, "<title>"@, "</title>"@),
        link: tag_text(c, "<link>"@, "</link>"@),
    }
}

/// The channel's image block, if it has one.
pub open spec fn image_model_at(c: Seq<char>) -> Option<ImageModel> {
    match tag_block(c, "<image>"@, "</image>"@, 0) {
        Option::None => Option::None,
        Option::Some((a, b)) => Option::Some(image_of(c.subrange(a, b))),
    }
}

/// The items of a channel, in document order, scanning from `from`.
pub open spec fn items_from(s: Seq<char>, from: int) -> Seq<ItemModel>
    decreases s.len() - from + 1,
    via items_from_decreases
{
    match tag_block(s, "<item>"@, "</item>"@, from) {
        Option::None => Seq::empty(),
        Option::Some((a, b)) => seq![item_of(s.subrange(a, b))] + items_from(
            s,
            b + "</item>"@.len(),
        ),
    }
}

#[via_fn]
proof fn items_from_decreases(s: Seq<char>, from: int) {
    reveal_strlit("<item>");
    reveal_strlit("</item>");
    match find_from(s, "<item>"@, from) {
        Option::None => {},
        Option::Some(o) => {
            lemma_find_from(s, "<item>"@, from);
            match find_from(s, "</item>"@, o + "<item>"@.len()) {
                Option::None => {},
                Option::Some(c) => {
                    lemma_find_from(s, "</item>"@, o + "<item>"@.len());
                },
            }
        },
    }
}

/// What a whole document means: `None` for a document with no channel
/// block — the one structural failure — and the channel's content
/// otherwise.
pub open spec fn parse_model(s: Seq<char>) -> Option<RssModel> {
    match tag_block(s, "<channel>"@, "</channel>"@, 0) {
        Option::None => Option::None,
        Option::Some((a, b)) => Option::Some(channel_model(s.subrange(a, b))),
    }
}

/// What a channel block's content means.
pub open spec fn channel_model(c: Seq<char>) -> RssModel {
    RssModel {
        title: tag_text(c, "<title>"@, "</title>"@),
        description: tag_text(c, "<description>"@, "</description>"@),
        image: image_model_at(c),
        items: items_from(c, 0),
    }
}

/// A feed item: every field optional in the document, empty when absent.
pub struct Item {
    pub title: String,
    pub link: String,
    pub publish_date: String,
}

/// The mathematical content of an item value.
pub open spec fn item_abs(it: Item) -> ItemModel {
    ItemModel { title: it.title@, link: it.link@, publish_date: it.publish_date@ }
}

impl Clone for Item {
    fn clone(&self) -> (r: Self)
        ensures
            r == *self,
    {
        Item {
            title: self.title.clone(),
            link: self.link.clone(),
            publish_date: self.publish_date.clone(),
        }
    }
}

struct Image {
    url: String,
    title: String,
    link: String,
}

spec fn image_abs(img: Image) -> ImageModel {
    ImageModel { url: img.url@, title: img.title@, link: img.link@ }
}

spec fn opt_image_abs(img: Option<Image>) -> Option<ImageModel> {
    match img {
        Option::None => Option::None,
        Option::Some(i) => Option::Some(image_abs(i)),
    }
}

struct Channel {
    title: String,
    description: String,
    image: Option<Image>,
    item: Vec<Item>,
}

/// A parsed feed: a channel and its items.
pub struct Rss {
    channel: Channel,
}

impl View for Rss {
    type V = RssModel;

    closed spec fn view(&self) -> RssModel {
        RssModel {
            title: self.channel.title@,
            description: self.channel.description@,
            image: opt_image_abs(self.channel.image),
            items: self.channel.item@.map_values(|it: Item| item_abs(it)),
        }
    }
}

fn tag_block_exec(s: &str, ot: &str, ct: &str, from: usize) -> (r: Option<(usize, usize)>)
    requires
        from <= s@.len(),
    ensures
        match r {
            Option::Some((a, b)) => tag_block(s@, ot@, ct@, from as int) == Option::Some(
                (a as int, b as int),
            ) && from + ot@.len() <= a <= b && b + ct@.len() <= s@.len(),
            Option::None => tag_block(s@, ot@, ct@, from as int) is None,
        },
{
    let n: usize = s.unicode_len();
    match find_str_from(s, ot, from) {
        None => None,
        Some(o) => {
            proof {
                lemma_find_from(s@, ot@, from as int);
            }
            let a = o + ot.unicode_len();
            match find_str_from(s, ct, a) {
                None => None,
                Some(c) => {
                    proof {
                        lemma_find_from(s@, ct@, a as int);
                    }
                    Some((a, c))
                },
            }
        },
    }
}

fn tag_text_exec(s: &str, ot: &str, ct: &str) -> (r: String)
    ensures
        r@ == tag_text(s@, ot@, ct@),
{
    match tag_block_exec(s, ot, ct, 0) {
        None => String::new(),
        Some((a, b)) => String::from_str(s.substring_char(a, b)),
    }
}

fn item_fields(c: &str) -> (r: Item)
    ensures
        item_abs(r) == item_of(c@),
{
    Item {
        title: tag_text_exec(c, "<title>", "</title>"),
        link: tag_text_exec(c, "<link>", "</link>"),
        publish_date: tag_text_exec(c, "<publish_date>", "</publish_date>"),
    }
}

fn parse_image(c: &str) -> (r: Option<Image>)
    ensures
        opt_image_abs(r) == image_model_at(c@),
{
    match tag_block_exec(c, "<image>", "</image>", 0) {
        None => None,
        Some((a, b)) => {
            let block = c.substring_char(a, b);
            Some(
                Image {
                    url: tag_text_exec(block, "<url>", "</url>"),
                    title: tag_text_exec(block, "<title>", "</title>"),
                    link: tag_text_exec(block, "<link>", "</link>"),
                },
            )
        },
    }
}

fn parse_items(s: &str) -> (r: Vec<Item>)
    ensures
        r@.map_values(|it: Item| item_abs(it)) == items_from(s@, 0),
{
    let n: usize = s.unicode_len();
    let mut items: Vec<Item> = Vec::new();
    let mut pos: usize = 0;
    proof {
        assert(items@.map_values(|it: Item| item_abs(it)) + items_from(s@, 0) =~= items_from(
            s@,
            0,
        ));
    }
    loop
        invariant
            n == s@.len(),
            pos <= n,
            items_from(s@, 0) == items@.map_values(|it: Item| item_abs(it)) + items_from(
                s@,
                pos as int,
            ),
        decreases n - pos,
    {
        match tag_block_exec(s, "<item>", "</item>", pos) {
            None => {
                proof {
                    assert(items_from(s@, pos as int) =~= Seq::<ItemModel>::empty());
                    assert(items@.map_values(|it: Item| item_abs(it)) =~= items_from(s@, 0));
                }
                return items;
            },
            Some((a, b)) => {
                let content = s.substring_char(a, b);
                let item = item_fields(content);
                let ghost prev = items@;
                items.push(item);
                let newpos = b + "</item>".unicode_len();
                proof {
                    reveal_strlit("<item>");
                    reveal_strlit("</item>");
                    assert(items_from(s@, pos as int) == seq![
                        item_of(s@.subrange(a as int, b as int)),
                    ] + items_from(s@, newpos as int));
                    assert(items@.map_values(|it: Item| item_abs(it)) =~= prev.map_values(
                        |it: Item| item_abs(it),
                    ).push(item_abs(item)));
                    assert(prev.map_values(|it: Item| item_abs(it)).push(item_abs(item))
                        + items_from(s@, newpos as int) =~= prev.map_values(
                        |it: Item| item_abs(it),
                    ) + items_from(s@, pos as int));
                }
                pos = newpos;
            },
        }
    }
}

impl Rss {
    /// Decodes raw feed text. Fails exactly on a document with no
    /// channel block; a channel with missing fields or no items parses,
    /// with empty strings standing for the absent pieces.
    pub fn parse(text: String) -> (r: Result<Rss, RssParsingError>)
        ensures
            (r matches Ok(rss) ==> parse_model(text@) == Option::Some(rss@)),
            r is Err <==> parse_model(text@) is None,
            (r matches Err(e) ==> e == RssParsingError::SerdeError),
    {
        let s = text.as_str();
        match tag_block_exec(s, "<channel>", "</channel>", 0) {
            None => Err(RssParsingError::SerdeError),
            Some((a, b)) => {
                let content = s.substring_char(a, b);
                let title = tag_text_exec(content, "<title>", "</title>");
                let description = tag_text_exec(content, "<description>", "</description>");
                let image = parse_image(content);
                let item = parse_items(content);
                let rss = Rss { channel: Channel { title, description, image, item } };
                proof {
                    assert(rss@ == channel_model(s@.subrange(a as int, b as int)));
                }
                Ok(rss)
            },
        }
    }

    /// The items of the feed, with each publish date normalized: the
    /// canonical form where the date parses as RFC-2822, the empty
    /// string where it does not. The feed keeps the normalized items.
    pub fn get_items(&mut self) -> (r: Vec<Item>)
        ensures
            final(self)@.title == old(self)@.title,
            final(self)@.description == old(self)@.description,
            final(self)@.image == old(self)@.image,
            final(self)@.items == old(self)@.items.map_values(|it: ItemModel| norm_item(it)),
            r@.map_values(|it: Item| item_abs(it)) == final(self)@.items,
    {
        let mut normalized: Vec<Item> = Vec::new();
        let mut i: usize = 0;
        while i < self.channel.item.len()
            invariant
                *self == *old(self),
                i <= self.channel.item@.len(),
                normalized@.map_values(|it: Item| item_abs(it)) == self@.items.take(
                    i as int,
                ).map_values(|it: ItemModel| norm_item(it)),
            decreases self.channel.item@.len() - i,
        {
            let src = &self.channel.item[i];
            let pd = match normalize_date(src.publish_date.as_str()) {
                Some(d) => d,
                None => String::new(),
            };
            let ghost prev = normalized@;
            normalized.push(
                Item { title: src.title.clone(), link: src.link.clone(), publish_date: pd },
            );
            proof {
                assert(self@.items[i as int] == item_abs(self.channel.item@[i as int]));
                assert(normalized@.map_values(|it: Item| item_abs(it)) =~= prev.map_values(
                    |it: Item| item_abs(it),
                ).push(item_abs(normalized@.last())));
                assert(self@.items.take(i + 1).map_values(|it: ItemModel| norm_item(it))
                    =~= self@.items.take(i as int).map_values(|it: ItemModel| norm_item(it)).push(
                    norm_item(self@.items[i as int]),
                ));
            }
            i = i + 1;
        }
        proof {
            assert(self@.items.take(self.channel.item@.len() as int) =~= self@.items);
        }
        let copy = clone_items(&normalized);
        self.channel.item = copy;
        proof {
            assert(self@.items =~= old(self)@.items.map_values(|it: ItemModel| norm_item(it)));
        }
        normalized
    }
}

fn clone_items(v: &Vec<Item>) -> (r: Vec<Item>)
    ensures
        r@ == v@,
{
    let mut r: Vec<Item> = Vec::new();
    let mut i: usize = 0;
    while i < v.len()
        invariant
            i <= v@.len(),
            r@ == v@.take(i as int),
        decreases v@.len() - i,
    {
        r.push(v[i].clone());
        proof {
            assert(v@.take(i + 1) =~= v@.take(i as int).push(v@[i as int]));
        }
        i = i + 1;
    }
    proof {
        assert(v@.take(v@.len() as int) =~= v@);
    }
    r
}

/// The canonical form of a raw publish date: what chrono's RFC-2822
/// parser and the `YYYY-MM-DD HH:MM:SS` formatting yield, if the raw
/// text parses as such a date. The result depends on the input
/// characters alone.
pub uninterp spec fn date_normalized(s: Seq<char>) -> Option<Seq<char>>;

/// Relies on chrono's `DateTime::parse_from_rfc2822` and its timestamp
/// formatting: whether the text parses, and its canonical form, depend
/// on the text alone; an empty string is never an RFC-2822 date.
#[verifier::external_body]
fn normalize_date(s: &str) -> (r: Option<String>)
    ensures
        r is Some <==> date_normalized(s@) is Some,
        (r matches Some(d) ==> date_normalized(s@) matches Some(m) && d@ == m),
        s@.len() == 0 ==> r is None,
{
    match chrono::DateTime::parse_from_rfc2822(s) {
        Ok(date) => Some(date.format("%Y-%m-%d %H:%M:%S").to_string()),
        Err(_) => None,
    }
}

/// A publish date after normalization: the canonical form where the raw
/// text parses, the empty string where it does not.
pub open spec fn norm_pd(s: Seq<char>) -> Seq<char> {
    match date_normalized(s) {
        Option::Some(d) => d,
        Option::None => Seq::empty(),
    }
}

/// An item after date normalization.
pub open spec fn norm_item(it: ItemModel) -> ItemModel {
    ItemModel { title: it.title, link: it.link, publish_date: norm_pd(it.publish_date) }
}

/// Law: lenient parsing — an item block with no publish-date element
/// still yields an item, whose publish date is the empty string.
pub proof fn lemma_missing_date_is_empty(c: Seq<char>)
    requires
        tag_block(c, "<publish_date>"@, "</publish_date>"@, 0) is None,
    ensures
        item_of(c).publish_date == Seq::<char>::empty(),
{
}

} // verus!
