//! The article assembler: placeholder expansion, required-field
//! validation, derived-field resolution, and the final record.

use vstd::prelude::*;
use vstd::string::StrSliceExecFns;
use vstd::string::StringExecFns;

use crate::blocks::doc_body;
use crate::blocks::doc_meta;
use crate::blocks::parse_news;
use crate::dict::Dict;
use crate::dict::lookup;
use crate::inline::format_primative_styles;
use crate::inline::styled;
use crate::links::format_links;
use crate::links::links_out;
use crate::split::meta_list;
use crate::split::split_meta_list;
use crate::text::replace_all;
use crate::text::replaced;

verus! {

/// One parsed article: its identity, the required metadata fields, the
/// derived list and image fields, and the final HTML body.
#[derive(Debug)]
pub struct Article {
    pub id: String,
    pub headline: String,
    pub desc: String,
    pub author: String,
    pub date: String,
    pub topic: Vec<String>,
    pub image: String,
    pub alt: String,
    pub tags: Vec<String>,
    pub body: String,
}

/// The one checked failure: a required metadata key was absent after the
/// frontmatter pass. It names the first missing key in the fixed
/// enumeration order of the required set.
#[derive(Debug, PartialEq, Eq)]
pub enum ArticleError {
    MissingField(String),
}

/// The required metadata keys, in the order they are checked.
pub open spec fn required_keys() -> Seq<Seq<char>> {
    seq![
        ("headline")@,
        ("desc")@,
        ("author")@,
        ("date")@,
        ("topic")@,
        ("image")@,
        ("alt")@,
    ]
}

/// The first required key, from position `i` on, that `meta` lacks.
pub open spec fn first_missing_from(meta: Seq<(Seq<char>, Seq<char>)>, i: int) -> Option<
    Seq<char>,
>
    decreases required_keys().len() - i,
{
    if !(0 <= i < required_keys().len()) {
        None
    } else if lookup(meta, required_keys()[i]) is None {
        Some(required_keys()[i])
    } else {
        first_missing_from(meta, i + 1)
    }
}

/// The first required key that `meta` lacks, if any.
pub open spec fn first_missing(meta: Seq<(Seq<char>, Seq<char>)>) -> Option<Seq<char>> {
    first_missing_from(meta, 0)
}

/// What the scan from position `i` settles: a hit names a missing
/// required key, and a miss means every required key from `i` on is
/// bound.
proof fn lemma_first_missing_from(meta: Seq<(Seq<char>, Seq<char>)>, i: int)
    requires
        0 <= i <= required_keys().len(),
    ensures
        match first_missing_from(meta, i) {
            Some(m) => required_keys().contains(m) && lookup(meta, m) is None,
            None => forall|j: int|
                i <= j < required_keys().len() ==> lookup(meta, #[trigger] required_keys()[j])
                    is Some,
        },
    decreases required_keys().len() - i,
{
    if i < required_keys().len() {
        if lookup(meta, required_keys()[i]) is None {
            assert(required_keys().contains(required_keys()[i]));
        } else {
            lemma_first_missing_from(meta, i + 1);
        }
    }
}

/// Missing-field law: a document whose metadata lacks any key of the
/// required set fails validation, and the key the failure names is
/// itself a missing required key — the first in the fixed order.
pub proof fn lemma_missing_required_key(meta: Seq<(Seq<char>, Seq<char>)>, k: Seq<char>)
    requires
        required_keys().contains(k),
        lookup(meta, k) is None,
    ensures
        first_missing(meta) matches Some(m) && required_keys().contains(m) && lookup(meta, m)
            is None,
{
    lemma_first_missing_from(meta, 0);
    if first_missing(meta) is None {
        let i = choose|i: int|
            0 <= i < required_keys().len() && required_keys()[i] == k;
        assert(lookup(meta, required_keys()[i]) is Some);
    }
}

/// `body` with every `@key` placeholder replaced by its metadata value,
/// the pairs applied in the mapping's order. When one key is a prefix of
/// another the outcome depends on that order; the hazard is inherited,
/// not resolved.
pub open spec fn expanded(body: Seq<char>, pairs: Seq<(Seq<char>, Seq<char>)>) -> Seq<char>
    decreases pairs.len(),
{
    if pairs.len() == 0 {
        body
    } else {
        expanded(replaced(body, seq!['@'] + pairs[0].0, pairs[0].1), pairs.drop_first())
    }
}

/// Replace every `@key` occurrence in `body` by the value that `meta`
/// binds to `key`, one pair after the other.
pub fn expand_placeholders(body: &str, meta: &Dict) -> (r: String)
    ensures
        r@ == expanded(body@, meta@),
{
    let n = meta.len();
    let mut cur = body.to_owned();
    let mut i: usize = 0;
    proof {
        assert(meta@.skip(0) =~= meta@);
    }
    while i < n
        invariant
            i <= n,
            n == meta@.len(),
            expanded(body@, meta@) == expanded(cur@, meta@.skip(i as int)),
        decreases n - i,
    {
        let ghost rem = meta@.skip(i as int);
        let mut pat = String::from_str("@");
        pat.append(meta.key_at(i));
        proof {
            reveal_strlit("@");
            assert(pat@ =~= seq!['@'] + meta@[i as int].0);
            assert(rem[0] == meta@[i as int]);
            assert(rem.drop_first() =~= meta@.skip(i as int + 1));
        }
        cur = replace_all(cur.as_str(), pat.as_str(), meta.val_at(i));
        i = i + 1;
    }
    proof {
        assert(meta@.skip(n as int) =~= Seq::<(Seq<char>, Seq<char>)>::empty());
    }
    cur
}

/// The resolved image field: `@` alone becomes the thumbnail path derived
/// from the article's id, a longer `@`-prefixed value is resolved against
/// the base URL, and anything else passes through as a full URL.
pub open spec fn resolved_image(image: Seq<char>, id: Seq<char>, url: Seq<char>) -> Seq<char> {
    if image == seq!['@'] {
        url + ("static/thumbs/")@ + id + (".jpg")@
    } else if image.len() > 0 && image[0] == '@' {
        url + image.drop_first()
    } else {
        image
    }
}

/// Resolve the raw `image` metadata value against the article `id` and
/// the base `url`.
pub fn resolve_image(image: &str, id: &str, url: &str) -> (r: String)
    ensures
        r@ == resolved_image(image@, id@, url@),
{
    let len = image.unicode_len();
    if len == 1 && image.get_char(0) == '@' {
        proof {
            assert(image@ =~= seq!['@']);
        }
        let mut out = String::from_str(url);
        out.append("static/thumbs/");
        out.append(id);
        out.append(".jpg");
        out
    } else if len > 0 && image.get_char(0) == '@' {
        proof {
            assert(image@ != seq!['@']) by {
                assert(image@.len() != 1);
            }
        }
        let mut out = String::from_str(url);
        out.append(image.substring_char(1, len));
        proof {
            assert(image@.subrange(1, len as int) =~= image@.drop_first());
        }
        out
    } else {
        proof {
            if image@ == seq!['@'] {
                assert(image@.len() == 1 && image@[0] == '@');
            }
        }
        image.to_owned()
    }
}

/// The tags of a document: the pipe-split `tags` value, or empty when
/// the key is absent.
pub open spec fn tags_of(meta: Seq<(Seq<char>, Seq<char>)>) -> Seq<Seq<char>> {
    match lookup(meta, ("tags")@) {
        Some(v) => meta_list(v),
        None => Seq::<Seq<char>>::empty(),
    }
}

/// The final HTML body of a document: the assembled fragments, with
/// placeholders expanded, inline styles toggled, and links substituted.
pub open spec fn final_body(text: Seq<char>, url: Seq<char>) -> Seq<char> {
    links_out(styled(expanded(doc_body(text), doc_meta(text))), url)
}

impl Article {
    /// Parse one source document into an article. The body runs through
    /// the whole pipeline; the required keys are checked in a fixed
    /// order and the first missing one is the error; `topic` and `tags`
    /// are pipe-split; the image path is resolved against `id` and
    /// `url`.
    pub fn from(id: &str, content: &str, url: &str) -> (r: Result<Article, ArticleError>)
        ensures
            match r {
                Ok(a) => {
                    &&& first_missing(doc_meta(content@)) is None
                    &&& a.id@ == id@
                    &&& Some(a.headline@) == lookup(doc_meta(content@), ("headline")@)
                    &&& Some(a.desc@) == lookup(doc_meta(content@), ("desc")@)
                    &&& Some(a.author@) == lookup(doc_meta(content@), ("author")@)
                    &&& Some(a.date@) == lookup(doc_meta(content@), ("date")@)
                    &&& Some(a.alt@) == lookup(doc_meta(content@), ("alt")@)
                    &&& lookup(doc_meta(content@), ("topic")@) matches Some(t)
                        && a.topic.deep_view() == meta_list(t)
                    &&& lookup(doc_meta(content@), ("image")@) matches Some(im)
                        && a.image@ == resolved_image(im, id@, url@)
                    &&& a.tags.deep_view() == tags_of(doc_meta(content@))
                    &&& a.body@ == final_body(content@, url@)
                },
                Err(ArticleError::MissingField(k)) => first_missing(doc_meta(content@))
                    == Some(k@),
            },
    {
        proof {
            reveal_with_fuel(first_missing_from, 9);
        }
        let (body0, meta) = parse_news(content);
        let body1 = expand_placeholders(body0.as_str(), &meta);
        let body2 = format_primative_styles(body1.as_str());
        let body3 = format_links(body2.as_str(), url);

        let headline = match meta.get("headline") {
            Some(v) => v,
            None => {
                return Err(ArticleError::MissingField(String::from_str("headline")));
            },
        };
        let desc = match meta.get("desc") {
            Some(v) => v,
            None => {
                return Err(ArticleError::MissingField(String::from_str("desc")));
            },
        };
        let author = match meta.get("author") {
            Some(v) => v,
            None => {
                return Err(ArticleError::MissingField(String::from_str("author")));
            },
        };
        let date = match meta.get("date") {
            Some(v) => v,
            None => {
                return Err(ArticleError::MissingField(String::from_str("date")));
            },
        };
        let topic_raw = match meta.get("topic") {
            Some(v) => v,
            None => {
                return Err(ArticleError::MissingField(String::from_str("topic")));
            },
        };
        let image_raw = match meta.get("image") {
            Some(v) => v,
            None => {
                return Err(ArticleError::MissingField(String::from_str("image")));
            },
        };
        let alt = match meta.get("alt") {
            Some(v) => v,
            None => {
                return Err(ArticleError::MissingField(String::from_str("alt")));
            },
        };

        let topic = split_meta_list(topic_raw.as_str());
        let tags = match meta.get("tags") {
            Some(v) => split_meta_list(v.as_str()),
            None => Vec::new(),
        };
        proof {
            if lookup(meta@, ("tags")@) is None {
                assert(tags@.len() == 0);
                assert(tags.deep_view() =~~= Seq::<Seq<char>>::empty());
            }
        }
        let image = resolve_image(image_raw.as_str(), id, url);

        Ok(
            Article {
                id: id.to_owned(),
                headline,
                desc,
                author,
                date,
                topic,
                image,
                alt,
                tags,
                body: body3,
            },
        )
    }
}

} // verus!
