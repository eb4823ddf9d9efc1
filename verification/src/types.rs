//! Wire-level helper types: the URL prefix and the three-state page tokens
//! of the paginated listing endpoints.

use vstd::prelude::*;

verus! {

/// A path prefix taken from the request URL.
#[derive(Debug, Clone, PartialEq)]
pub struct Prefix(String);

impl View for Prefix {
    type V = Seq<char>;

    closed spec fn view(&self) -> Seq<char> {
        self.0@
    }
}

impl Prefix {
    pub fn new(s: String) -> (r: Self)
        ensures
            r@ == s@,
    {
        Prefix(s)
    }

    pub fn as_str(&self) -> (r: &str)
        ensures
            r@ == self@,
    {
        self.0.as_str()
    }

    pub fn into_string(self) -> (r: String)
        ensures
            r@ == self@,
    {
        self.0
    }
}

/// A page token as a client sends it: absent, explicitly empty, or a cursor.
#[derive(Debug, Clone, PartialEq)]
pub enum PageToken {
    /// The value is present and not ""
    Present(String),
    /// The value is not present
    NotSpecified,
    /// Specified but empty
    Empty,
}

impl PageToken {
    pub fn new_present(s: String) -> (r: Self)
        ensures
            s@.len() == 0 ==> r == PageToken::Empty,
            s@.len() > 0 ==> r == PageToken::Present(s),
    {
        if s.as_str().is_empty() {
            PageToken::Empty
        } else {
            PageToken::Present(s)
        }
    }

    /// The mapping a query-string deserializer applies: a missing key is
    /// `NotSpecified`, a key with an empty value is `Empty`, anything else
    /// is `Present`.
    pub fn from_query_value(opt: Option<String>) -> (r: Self)
        ensures
            opt is None ==> r == PageToken::NotSpecified,
            opt matches Some(s) ==> r == (if s@.len() == 0 {
                PageToken::Empty
            } else {
                PageToken::Present(s)
            }),
    {
        match opt {
            None => PageToken::NotSpecified,
            Some(s) => PageToken::new_present(s),
        }
    }

    /// The inverse mapping used on serialization: `Present` keeps its cursor,
    /// `Empty` becomes the empty string, `NotSpecified` stays absent.
    pub fn to_query_value(&self) -> (r: Option<String>)
        ensures
            match self {
                PageToken::Present(s) => r matches Some(v) && v@ == s@,
                PageToken::Empty => r matches Some(v) && v@ == Seq::<char>::empty(),
                PageToken::NotSpecified => r is None,
            },
    {
        match self {
            PageToken::Present(s) => Some(s.clone()),
            PageToken::Empty => Some(String::new()),
            PageToken::NotSpecified => None,
        }
    }

    pub fn is_empty(&self) -> (r: bool)
        ensures
            r == (self is Empty),
    {
        matches!(self, PageToken::Empty)
    }

    pub fn is_unspecified(&self) -> (r: bool)
        ensures
            r == (self is NotSpecified),
    {
        matches!(self, PageToken::NotSpecified)
    }

    pub fn skip_serialize(&self) -> (r: bool)
        ensures
            r == (self is NotSpecified),
    {
        matches!(self, PageToken::NotSpecified)
    }
}

/// A server-side page token: a cursor for the next page, an explicit end of
/// pagination, or a marker that pagination is unsupported.
#[derive(Debug, Clone, PartialEq)]
pub enum NextPageToken {
    /// The value is present and not "" and not "null"
    NextToken(String),
    /// Pagination finished; serialized as the literal string "null"
    Finished,
    /// The server does not support pagination; the field is omitted
    NotSupported,
}

impl NextPageToken {
    pub fn new_finished() -> (r: Self)
        ensures
            r == NextPageToken::Finished,
    {
        NextPageToken::Finished
    }

    pub fn new_not_supported() -> (r: Self)
        ensures
            r == NextPageToken::NotSupported,
    {
        NextPageToken::NotSupported
    }

    pub fn new_next_token(s: String) -> (r: Self)
        ensures
            s@.len() == 0 ==> r == NextPageToken::Finished,
            s@.len() > 0 && s@ == "null"@ ==> r == NextPageToken::NotSupported,
            s@.len() > 0 && s@ != "null"@ ==> r == NextPageToken::NextToken(s),
    {
        let null_literal = "null".to_owned();
        if s.as_str().is_empty() {
            NextPageToken::Finished
        } else if s == null_literal {
            NextPageToken::NotSupported
        } else {
            NextPageToken::NextToken(s)
        }
    }

    /// The mapping used on serialization: a cursor keeps its string,
    /// `Finished` becomes the literal "null", `NotSupported` stays absent.
    pub fn to_query_value(&self) -> (r: Option<String>)
        ensures
            match self {
                NextPageToken::NextToken(s) => r matches Some(v) && v@ == s@,
                NextPageToken::Finished => r matches Some(v) && v@ == "null"@,
                NextPageToken::NotSupported => r is None,
            },
    {
        match self {
            NextPageToken::NextToken(s) => Some(s.clone()),
            NextPageToken::Finished => Some("null".to_owned()),
            NextPageToken::NotSupported => None,
        }
    }

    pub fn is_unsupported(&self) -> (r: bool)
        ensures
            r == (self is NotSupported),
    {
        matches!(self, NextPageToken::NotSupported)
    }

    pub fn is_finished(&self) -> (r: bool)
        ensures
            r == (self is Finished),
    {
        matches!(self, NextPageToken::Finished)
    }

    pub fn skip_serialize(&self) -> (r: bool)
        ensures
            r == (self is NotSupported),
    {
        matches!(self, NextPageToken::NotSupported)
    }
}

} // verus!
