//! Links of all kinds, and what they are made of.

use crate::elements::date::Date;
use crate::elements::metadata::Metadata;
use crate::elements::uri::{Uri, UriView};
use crate::text::{
    borrow_text, borrow_texts, own_text, own_texts, clone_text, clone_texts, texts_view,
};
use std::borrow::Cow;
use vstd::prelude::*;

verus! {

/// The segments of an anchor: `#a#b` is `["a", "b"]`.
#[derive(Debug, PartialEq, Eq)]
pub struct Anchor<'a> {
    pub elements: Vec<Cow<'a, str>>,
}

impl<'a> View for Anchor<'a> {
    type V = Seq<Seq<char>>;

    open spec fn view(&self) -> Seq<Seq<char>> {
        texts_view(self.elements@)
    }
}

impl<'a> Anchor<'a> {
    pub fn new(elements: Vec<Cow<'a, str>>) -> (r: Anchor<'a>)
        ensures
            r@ == texts_view(elements@),
    {
        Anchor { elements }
    }

    pub fn to_borrowed<'b>(&'b self) -> (r: Anchor<'b>)
        ensures
            r@ == self@,
    {
        Anchor { elements: borrow_texts(&self.elements) }
    }

    pub fn owned_copy(&self) -> (r: Anchor<'static>)
        ensures
            r@ == self@,
    {
        Anchor { elements: own_texts(clone_texts(&self.elements)) }
    }

    pub fn into_owned(self) -> (r: Anchor<'static>)
        ensures
            r@ == self@,
    {
        Anchor { elements: own_texts(self.elements) }
    }
}

impl<'a> Clone for Anchor<'a> {
    fn clone(&self) -> (r: Self)
        ensures
            r@ == self@,
    {
        self.owned_copy()
    }
}

/// What stands after the `|` of a link: text, or a URI to show in its place.
#[derive(Debug, PartialEq, Eq)]
pub enum Description<'a> {
    Text(Cow<'a, str>),
    Uri(Uri),
}

/// What a `Description` holds.
pub enum DescriptionView {
    Text(Seq<char>),
    Uri(UriView),
}

impl<'a> View for Description<'a> {
    type V = DescriptionView;

    open spec fn view(&self) -> DescriptionView {
        match self {
            Description::Text(t) => DescriptionView::Text(t@),
            Description::Uri(u) => DescriptionView::Uri(u@),
        }
    }
}

impl<'a> Description<'a> {
    pub fn to_borrowed<'b>(&'b self) -> (r: Description<'b>)
        ensures
            r@ == self@,
    {
        match self {
            Description::Text(t) => Description::Text(borrow_text(t)),
            Description::Uri(u) => Description::Uri(u.duplicate()),
        }
    }

    pub fn owned_copy(&self) -> (r: Description<'static>)
        ensures
            r@ == self@,
    {
        match self {
            Description::Text(t) => Description::Text(own_text(clone_text(t))),
            Description::Uri(u) => Description::Uri(u.duplicate()),
        }
    }

    pub fn into_owned(self) -> (r: Description<'static>)
        ensures
            r@ == self@,
    {
        match self {
            Description::Text(t) => Description::Text(own_text(t)),
            Description::Uri(u) => Description::Uri(u),
        }
    }
}

impl<'a> Clone for Description<'a> {
    fn clone(&self) -> (r: Self)
        ensures
            r@ == self@,
    {
        self.owned_copy()
    }
}

/// The view of an optional description.
pub open spec fn opt_description_view<'a>(o: Option<Description<'a>>) -> Option<DescriptionView> {
    match o {
        Some(d) => Some(d@),
        None => None,
    }
}

/// The view of an optional anchor.
pub open spec fn opt_anchor_view<'a>(o: Option<Anchor<'a>>) -> Option<Seq<Seq<char>>> {
    match o {
        Some(a) => Some(a@),
        None => None,
    }
}

pub fn borrow_opt_description<'b, 'a>(o: &'b Option<Description<'a>>) -> (r: Option<
    Description<'b>,
>)
    ensures
        opt_description_view(r) == opt_description_view(*o),
{
    match o {
        Some(d) => Some(d.to_borrowed()),
        None => None,
    }
}

pub fn own_opt_description<'a>(o: &Option<Description<'a>>) -> (r: Option<Description<'static>>)
    ensures
        opt_description_view(r) == opt_description_view(*o),
{
    match o {
        Some(d) => Some(d.owned_copy()),
        None => None,
    }
}

pub fn borrow_opt_anchor<'b, 'a>(o: &'b Option<Anchor<'a>>) -> (r: Option<Anchor<'b>>)
    ensures
        opt_anchor_view(r) == opt_anchor_view(*o),
{
    match o {
        Some(d) => Some(d.to_borrowed()),
        None => None,
    }
}

pub fn own_opt_anchor<'a>(o: &Option<Anchor<'a>>) -> (r: Option<Anchor<'static>>)
    ensures
        opt_anchor_view(r) == opt_anchor_view(*o),
{
    match o {
        Some(d) => Some(d.owned_copy()),
        None => None,
    }
}

/// A link to a page of the wiki: `[[path#anchor|description]]`.
#[derive(Debug, PartialEq, Eq)]
pub struct WikiLink<'a> {
    pub path: Cow<'a, str>,
    pub description: Option<Description<'a>>,
    pub anchor: Option<Anchor<'a>>,
}

/// What a `WikiLink` holds.
pub struct WikiLinkView {
    pub path: Seq<char>,
    pub description: Option<DescriptionView>,
    pub anchor: Option<Seq<Seq<char>>>,
}

impl WikiLinkView {
    /// The path names a directory: it ends in `/`.
    pub open spec fn is_path_dir(&self) -> bool {
        self.path.len() > 0 && self.path.last() == '/'
    }

    /// The path starts at the root of the wiki: it begins with `/`.
    pub open spec fn is_path_absolute(&self) -> bool {
        self.path.len() > 0 && self.path[0] == '/'
    }

    /// The link has an anchor and no path: it points into the page it
    /// stands in.
    pub open spec fn is_local_anchor(&self) -> bool {
        self.path.len() == 0 && self.anchor is Some
    }
}

impl<'a> View for WikiLink<'a> {
    type V = WikiLinkView;

    open spec fn view(&self) -> WikiLinkView {
        WikiLinkView {
            path: self.path@,
            description: opt_description_view(self.description),
            anchor: opt_anchor_view(self.anchor),
        }
    }
}

impl<'a> WikiLink<'a> {
    pub fn new(
        path: Cow<'a, str>,
        description: Option<Description<'a>>,
        anchor: Option<Anchor<'a>>,
    ) -> (r: WikiLink<'a>)
        ensures
            r.path == path,
            r.description == description,
            r.anchor == anchor,
    {
        WikiLink { path, description, anchor }
    }

    pub fn path(&self) -> (r: &str)
        ensures
            r@ == self@.path,
    {
        crate::text::text_str(&self.path)
    }

    /// Whether the path names a directory.
    pub fn is_path_dir(&self) -> (r: bool)
        ensures
            r == self@.is_path_dir(),
    {
        let p = crate::text::text_str(&self.path);
        let n = p.unicode_len();
        n > 0 && p.get_char(n - 1) == '/'
    }

    /// Whether the path starts at the root of the wiki.
    pub fn is_path_absolute(&self) -> (r: bool)
        ensures
            r == self@.is_path_absolute(),
    {
        let p = crate::text::text_str(&self.path);
        let n = p.unicode_len();
        n > 0 && p.get_char(0) == '/'
    }

    /// Whether the path is relative to the page the link stands in.
    pub fn is_path_relative(&self) -> (r: bool)
        ensures
            r == !self@.is_path_absolute(),
    {
        !self.is_path_absolute()
    }

    /// Whether the link points into the page it stands in.
    pub fn is_local_anchor(&self) -> (r: bool)
        ensures
            r == self@.is_local_anchor(),
    {
        let p = crate::text::text_str(&self.path);
        p.unicode_len() == 0 && self.anchor.is_some()
    }

    pub fn to_borrowed<'b>(&'b self) -> (r: WikiLink<'b>)
        ensures
            r@ == self@,
    {
        WikiLink {
            path: borrow_text(&self.path),
            description: borrow_opt_description(&self.description),
            anchor: borrow_opt_anchor(&self.anchor),
        }
    }

    pub fn owned_copy(&self) -> (r: WikiLink<'static>)
        ensures
            r@ == self@,
    {
        WikiLink {
            path: own_text(clone_text(&self.path)),
            description: own_opt_description(&self.description),
            anchor: own_opt_anchor(&self.anchor),
        }
    }

    pub fn into_owned(self) -> (r: WikiLink<'static>)
        ensures
            r@ == self@,
    {
        self.owned_copy()
    }
}

impl<'a> Clone for WikiLink<'a> {
    fn clone(&self) -> (r: Self)
        ensures
            r@ == self@,
    {
        self.owned_copy()
    }
}

/// A link into another wiki, named by its number: `[[wiki1:path]]`.
#[derive(Debug, PartialEq, Eq)]
pub struct IndexedInterWikiLink<'a> {
    pub index: u32,
    pub link: WikiLink<'a>,
}

/// A link into another wiki, named by its name: `[[wn.name:path]]`.
#[derive(Debug, PartialEq, Eq)]
pub struct NamedInterWikiLink<'a> {
    pub name: Cow<'a, str>,
    pub link: WikiLink<'a>,
}

/// A link into another wiki.
#[derive(Debug, PartialEq, Eq)]
pub enum InterWikiLink<'a> {
    Indexed(IndexedInterWikiLink<'a>),
    Named(NamedInterWikiLink<'a>),
}

/// What an `InterWikiLink` holds.
pub enum InterWikiLinkView {
    Indexed { index: u32, link: WikiLinkView },
    Named { name: Seq<char>, link: WikiLinkView },
}

impl<'a> View for IndexedInterWikiLink<'a> {
    type V = InterWikiLinkView;

    open spec fn view(&self) -> InterWikiLinkView {
        InterWikiLinkView::Indexed { index: self.index, link: self.link@ }
    }
}

impl<'a> View for NamedInterWikiLink<'a> {
    type V = InterWikiLinkView;

    open spec fn view(&self) -> InterWikiLinkView {
        InterWikiLinkView::Named { name: self.name@, link: self.link@ }
    }
}

impl<'a> View for InterWikiLink<'a> {
    type V = InterWikiLinkView;

    open spec fn view(&self) -> InterWikiLinkView {
        match self {
            InterWikiLink::Indexed(l) => l@,
            InterWikiLink::Named(l) => l@,
        }
    }
}

impl<'a> IndexedInterWikiLink<'a> {
    pub fn new(index: u32, link: WikiLink<'a>) -> (r: IndexedInterWikiLink<'a>)
        ensures
            r.index == index,
            r.link == link,
    {
        IndexedInterWikiLink { index, link }
    }
}

impl<'a> NamedInterWikiLink<'a> {
    pub fn new(name: Cow<'a, str>, link: WikiLink<'a>) -> (r: NamedInterWikiLink<'a>)
        ensures
            r.name == name,
            r.link == link,
    {
        NamedInterWikiLink { name, link }
    }
}

impl<'a> InterWikiLink<'a> {
    /// The number of the wiki, where the link names it by number.
    pub fn index(&self) -> (r: Option<u32>)
        ensures
            r == (match self@ {
                InterWikiLinkView::Indexed { index, .. } => Some(index),
                InterWikiLinkView::Named { .. } => None,
            }),
    {
        match self {
            InterWikiLink::Indexed(l) => Some(l.index),
            InterWikiLink::Named(_) => None,
        }
    }

    /// The name of the wiki, where the link names it by name.
    pub fn name(&self) -> (r: Option<&str>)
        ensures
            match r {
                Some(n) => self@ matches InterWikiLinkView::Named { name, .. } && n@ == name,
                None => self@ is Indexed,
            },
    {
        match self {
            InterWikiLink::Indexed(_) => None,
            InterWikiLink::Named(l) => Some(crate::text::text_str(&l.name)),
        }
    }

    /// The link within the other wiki.
    pub fn link(&self) -> (r: &WikiLink<'a>)
        ensures
            r@ == (match self@ {
                InterWikiLinkView::Indexed { link, .. } => link,
                InterWikiLinkView::Named { link, .. } => link,
            }),
    {
        match self {
            InterWikiLink::Indexed(l) => &l.link,
            InterWikiLink::Named(l) => &l.link,
        }
    }

    pub fn to_borrowed<'b>(&'b self) -> (r: InterWikiLink<'b>)
        ensures
            r@ == self@,
    {
        match self {
            InterWikiLink::Indexed(l) => InterWikiLink::Indexed(
                IndexedInterWikiLink { index: l.index, link: l.link.to_borrowed() },
            ),
            InterWikiLink::Named(l) => InterWikiLink::Named(
                NamedInterWikiLink { name: borrow_text(&l.name), link: l.link.to_borrowed() },
            ),
        }
    }

    pub fn owned_copy(&self) -> (r: InterWikiLink<'static>)
        ensures
            r@ == self@,
    {
        match self {
            InterWikiLink::Indexed(l) => InterWikiLink::Indexed(
                IndexedInterWikiLink { index: l.index, link: l.link.owned_copy() },
            ),
            InterWikiLink::Named(l) => InterWikiLink::Named(
                NamedInterWikiLink {
                    name: own_text(clone_text(&l.name)),
                    link: l.link.owned_copy(),
                },
            ),
        }
    }

    pub fn into_owned(self) -> (r: InterWikiLink<'static>)
        ensures
            r@ == self@,
    {
        self.owned_copy()
    }
}

impl<'a> Clone for InterWikiLink<'a> {
    fn clone(&self) -> (r: Self)
        ensures
            r@ == self@,
    {
        self.owned_copy()
    }
}

/// A link to the diary entry of a day: `[[diary:2012-03-05]]`.
#[derive(Debug, PartialEq, Eq)]
pub struct DiaryLink<'a> {
    pub date: Date,
    pub description: Option<Description<'a>>,
    pub anchor: Option<Anchor<'a>>,
}

/// What a `DiaryLink` holds.
pub struct DiaryLinkView {
    pub date: Date,
    pub description: Option<DescriptionView>,
    pub anchor: Option<Seq<Seq<char>>>,
}

impl<'a> View for DiaryLink<'a> {
    type V = DiaryLinkView;

    open spec fn view(&self) -> DiaryLinkView {
        DiaryLinkView {
            date: self.date,
            description: opt_description_view(self.description),
            anchor: opt_anchor_view(self.anchor),
        }
    }
}

impl<'a> DiaryLink<'a> {
    pub fn new(
        date: Date,
        description: Option<Description<'a>>,
        anchor: Option<Anchor<'a>>,
    ) -> (r: DiaryLink<'a>)
        ensures
            r.date == date,
            r.description == description,
            r.anchor == anchor,
    {
        DiaryLink { date, description, anchor }
    }

    pub fn to_borrowed<'b>(&'b self) -> (r: DiaryLink<'b>)
        ensures
            r@ == self@,
    {
        DiaryLink {
            date: self.date,
            description: borrow_opt_description(&self.description),
            anchor: borrow_opt_anchor(&self.anchor),
        }
    }

    pub fn owned_copy(&self) -> (r: DiaryLink<'static>)
        ensures
            r@ == self@,
    {
        DiaryLink {
            date: self.date,
            description: own_opt_description(&self.description),
            anchor: own_opt_anchor(&self.anchor),
        }
    }

    pub fn into_owned(self) -> (r: DiaryLink<'static>)
        ensures
            r@ == self@,
    {
        self.owned_copy()
    }
}

impl<'a> Clone for DiaryLink<'a> {
    fn clone(&self) -> (r: Self)
        ensures
            r@ == self@,
    {
        self.owned_copy()
    }
}

/// How the path of an external file link is to be read.
#[derive(Clone, Copy, Debug, PartialEq, Eq, Hash, Structural)]
pub enum ExternalFileLinkScheme {
    /// `local:`, a file beside the wiki.
    Local,
    /// `file:`, a file anywhere.
    File,
    /// `//`, an absolute path.
    Absolute,
}

/// A link to a file outside the wiki: `[[file:path|description]]`.
#[derive(Debug, PartialEq, Eq)]
pub struct ExternalFileLink<'a> {
    pub scheme: ExternalFileLinkScheme,
    pub path: Cow<'a, str>,
    pub description: Option<Description<'a>>,
}

/// What an `ExternalFileLink` holds.
pub struct ExternalFileLinkView {
    pub scheme: ExternalFileLinkScheme,
    pub path: Seq<char>,
    pub description: Option<DescriptionView>,
}

impl<'a> View for ExternalFileLink<'a> {
    type V = ExternalFileLinkView;

    open spec fn view(&self) -> ExternalFileLinkView {
        ExternalFileLinkView {
            scheme: self.scheme,
            path: self.path@,
            description: opt_description_view(self.description),
        }
    }
}

impl<'a> ExternalFileLink<'a> {
    pub fn new(
        scheme: ExternalFileLinkScheme,
        path: Cow<'a, str>,
        description: Option<Description<'a>>,
    ) -> (r: ExternalFileLink<'a>)
        ensures
            r.scheme == scheme,
            r.path == path,
            r.description == description,
    {
        ExternalFileLink { scheme, path, description }
    }

    pub fn to_borrowed<'b>(&'b self) -> (r: ExternalFileLink<'b>)
        ensures
            r@ == self@,
    {
        ExternalFileLink {
            scheme: self.scheme,
            path: borrow_text(&self.path),
            description: borrow_opt_description(&self.description),
        }
    }

    pub fn owned_copy(&self) -> (r: ExternalFileLink<'static>)
        ensures
            r@ == self@,
    {
        ExternalFileLink {
            scheme: self.scheme,
            path: own_text(clone_text(&self.path)),
            description: own_opt_description(&self.description),
        }
    }

    pub fn into_owned(self) -> (r: ExternalFileLink<'static>)
        ensures
            r@ == self@,
    {
        self.owned_copy()
    }
}

impl<'a> Clone for ExternalFileLink<'a> {
    fn clone(&self) -> (r: Self)
        ensures
            r@ == self@,
    {
        self.owned_copy()
    }
}

/// A URI written out in the text.
#[derive(Debug, PartialEq, Eq)]
pub struct RawLink {
    pub uri: Uri,
}

impl View for RawLink {
    type V = UriView;

    open spec fn view(&self) -> UriView {
        self.uri@
    }
}

impl RawLink {
    pub fn new(uri: Uri) -> (r: RawLink)
        ensures
            r.uri == uri,
    {
        RawLink { uri }
    }

    pub fn owned_copy(&self) -> (r: RawLink)
        ensures
            r@ == self@,
    {
        RawLink { uri: self.uri.duplicate() }
    }
}

impl Clone for RawLink {
    fn clone(&self) -> (r: Self)
        ensures
            r@ == self@,
    {
        self.owned_copy()
    }
}

/// A link that pulls what it points to into the page:
/// `{{uri|description|key="value"}}`.
#[derive(Debug, PartialEq, Eq)]
pub struct TransclusionLink<'a> {
    pub uri: Uri,
    pub description: Option<Description<'a>>,
    pub properties: Metadata<'a>,
}

/// What a `TransclusionLink` holds.
pub struct TransclusionLinkView {
    pub uri: UriView,
    pub description: Option<DescriptionView>,
    pub properties: Map<Seq<char>, Seq<char>>,
}

impl<'a> View for TransclusionLink<'a> {
    type V = TransclusionLinkView;

    open spec fn view(&self) -> TransclusionLinkView {
        TransclusionLinkView {
            uri: self.uri@,
            description: opt_description_view(self.description),
            properties: self.properties@,
        }
    }
}

impl<'a> TransclusionLink<'a> {
    pub fn new(
        uri: Uri,
        description: Option<Description<'a>>,
        properties: Metadata<'a>,
    ) -> (r: TransclusionLink<'a>)
        ensures
            r.uri == uri,
            r.description == description,
            r.properties == properties,
    {
        TransclusionLink { uri, description, properties }
    }

    pub fn to_borrowed<'b>(&'b self) -> (r: TransclusionLink<'b>)
        ensures
            r@ == self@,
    {
        TransclusionLink {
            uri: self.uri.duplicate(),
            description: borrow_opt_description(&self.description),
            properties: self.properties.to_borrowed(),
        }
    }

    pub fn owned_copy(&self) -> (r: TransclusionLink<'static>)
        ensures
            r@ == self@,
    {
        TransclusionLink {
            uri: self.uri.duplicate(),
            description: own_opt_description(&self.description),
            properties: self.properties.owned_copy(),
        }
    }

    pub fn into_owned(self) -> (r: TransclusionLink<'static>)
        ensures
            r@ == self@,
    {
        self.owned_copy()
    }
}

impl<'a> Clone for TransclusionLink<'a> {
    fn clone(&self) -> (r: Self)
        ensures
            r@ == self@,
    {
        self.owned_copy()
    }
}

/// A link of any kind.
#[derive(Debug, PartialEq, Eq)]
pub enum Link<'a> {
    Wiki(WikiLink<'a>),
    InterWiki(InterWikiLink<'a>),
    Diary(DiaryLink<'a>),
    Raw(RawLink),
    ExternalFile(ExternalFileLink<'a>),
    Transclusion(TransclusionLink<'a>),
}

/// What a `Link` holds.
pub enum LinkView {
    Wiki(WikiLinkView),
    InterWiki(InterWikiLinkView),
    Diary(DiaryLinkView),
    Raw(UriView),
    ExternalFile(ExternalFileLinkView),
    Transclusion(TransclusionLinkView),
}

impl<'a> View for Link<'a> {
    type V = LinkView;

    open spec fn view(&self) -> LinkView {
        match self {
            Link::Wiki(l) => LinkView::Wiki(l@),
            Link::InterWiki(l) => LinkView::InterWiki(l@),
            Link::Diary(l) => LinkView::Diary(l@),
            Link::Raw(l) => LinkView::Raw(l@),
            Link::ExternalFile(l) => LinkView::ExternalFile(l@),
            Link::Transclusion(l) => LinkView::Transclusion(l@),
        }
    }
}

impl LinkView {
    /// The description of the link, if it has one.
    pub open spec fn description(self) -> Option<DescriptionView> {
        match self {
            LinkView::Wiki(l) => l.description,
            LinkView::InterWiki(InterWikiLinkView::Indexed { link, .. }) => link.description,
            LinkView::InterWiki(InterWikiLinkView::Named { link, .. }) => link.description,
            LinkView::Diary(l) => l.description,
            LinkView::Raw(_) => None,
            LinkView::ExternalFile(l) => l.description,
            LinkView::Transclusion(l) => l.description,
        }
    }

    /// The text that stands for the link on the page: its description, if
    /// it has one that is text.
    pub open spec fn text(self) -> Seq<char> {
        match self.description() {
            Some(DescriptionView::Text(t)) => t,
            _ => Seq::empty(),
        }
    }
}

impl<'a> Link<'a> {
    /// The description of the link, if it has one.
    pub fn description(&self) -> (r: Option<&Description<'a>>)
        ensures
            match r {
                Some(d) => self@.description() == Some(d@),
                None => self@.description() is None,
            },
    {
        match self {
            Link::Wiki(l) => l.description.as_ref(),
            Link::InterWiki(InterWikiLink::Indexed(l)) => l.link.description.as_ref(),
            Link::InterWiki(InterWikiLink::Named(l)) => l.link.description.as_ref(),
            Link::Diary(l) => l.description.as_ref(),
            Link::Raw(_) => None,
            Link::ExternalFile(l) => l.description.as_ref(),
            Link::Transclusion(l) => l.description.as_ref(),
        }
    }

    pub fn to_borrowed<'b>(&'b self) -> (r: Link<'b>)
        ensures
            r@ == self@,
    {
        match self {
            Link::Wiki(l) => Link::Wiki(l.to_borrowed()),
            Link::InterWiki(l) => Link::InterWiki(l.to_borrowed()),
            Link::Diary(l) => Link::Diary(l.to_borrowed()),
            Link::Raw(l) => Link::Raw(l.owned_copy()),
            Link::ExternalFile(l) => Link::ExternalFile(l.to_borrowed()),
            Link::Transclusion(l) => Link::Transclusion(l.to_borrowed()),
        }
    }

    pub fn owned_copy(&self) -> (r: Link<'static>)
        ensures
            r@ == self@,
    {
        match self {
            Link::Wiki(l) => Link::Wiki(l.owned_copy()),
            Link::InterWiki(l) => Link::InterWiki(l.owned_copy()),
            Link::Diary(l) => Link::Diary(l.owned_copy()),
            Link::Raw(l) => Link::Raw(l.owned_copy()),
            Link::ExternalFile(l) => Link::ExternalFile(l.owned_copy()),
            Link::Transclusion(l) => Link::Transclusion(l.owned_copy()),
        }
    }

    pub fn into_owned(self) -> (r: Link<'static>)
        ensures
            r@ == self@,
    {
        self.owned_copy()
    }
}

impl<'a> Clone for Link<'a> {
    fn clone(&self) -> (r: Self)
        ensures
            r@ == self@,
    {
        self.owned_copy()
    }
}

} // verus!
