//! The records that the crawler extracts: a link and an issue element.
use vstd::prelude::*;

verus! {

/// A URL as it was read from markup; not validated.
#[derive(Debug, Clone, PartialEq)]
pub struct Link(pub String);

impl View for Link {
    type V = Seq<char>;

    open spec fn view(&self) -> Seq<char> {
        self.0@
    }
}

impl Link {
    /// The URL text.
    pub fn as_str(&self) -> (r: &str)
        ensures
            r@ == self@,
    {
        self.0.as_str()
    }

    /// The URL text as an owned string.
    pub fn to_string(&self) -> (r: String)
        ensures
            r@ == self@,
    {
        self.0.clone()
    }
}

impl std::ops::Deref for Link {
    type Target = String;

    fn deref(&self) -> (r: &String)
        ensures
            r@ == self@,
    {
        &self.0
    }
}

/// One extracted anchor: the text it shows and the URL it points to.
#[derive(Debug, Clone)]
pub struct TwirLinkElement {
    pub title: String,
    pub link: Link,
}

impl View for TwirLinkElement {
    /// The title, then the link.
    type V = (Seq<char>, Seq<char>);

    open spec fn view(&self) -> (Seq<char>, Seq<char>) {
        (self.title@, self.link@)
    }
}

impl TwirLinkElement {
    pub fn new(link: Link, title: String) -> (r: Self)
        ensures
            r@ == (title@, link@),
    {
        TwirLinkElement { link, title }
    }

    /// A copy that keeps both fields.
    pub fn duplicate(&self) -> (r: Self)
        ensures
            r@ == self@,
    {
        TwirLinkElement { title: self.title.clone(), link: Link(self.link.0.clone()) }
    }
}

} // verus!
