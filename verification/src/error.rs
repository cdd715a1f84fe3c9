//! The ways in which reading a value or building a theme can fail.

use vstd::prelude::*;
use crate::anim_state::AnimStateKey;

verus! {

/// Why a color or an animation state could not be read from its text.
#[derive(Copy, Clone, Debug, PartialEq, Eq, Hash, Structural)]
pub enum ParseError {
    /// An animation state names more keys than it has slots.
    TooManyKeys,
    /// `Normal` stands beside another key.
    NormalNotAlone,
    /// The same key is named twice.
    DuplicateKey(AnimStateKey),
    /// A token is not the name of a key: it is the token at the given
    /// place, counted from zero.
    UnknownKey(usize),
    /// A hex color has neither three nor six digits, or holds characters
    /// outside ASCII.
    BadLength,
    /// A hex color holds a character that is no hexadecimal digit: the
    /// component named is the first that could not be read.
    BadHex(Channel),
    /// A color name is not one of the known names.
    UnknownColor,
}

/// One of the three components of a color.
#[derive(Copy, Clone, Debug, PartialEq, Eq, Hash, Structural)]
pub enum Channel {
    Red,
    Green,
    Blue,
}

/// The place in a widget definition that names a resource.
#[derive(Copy, Clone, Debug, PartialEq, Eq, Hash, Structural)]
pub enum ResourceKind {
    /// The `background` image
    Background,
    /// The `foreground` image
    Foreground,
    /// The `font`
    Font,
}

/// Why a theme could not be built from its definition. Each of these ends
/// the build: no partial theme is handed out.
#[derive(Debug, PartialEq, Eq)]
pub enum Error {
    /// The local id of a widget holds the `/` character.
    Name { id: String },
    /// A widget names a font or an image that is not registered.
    MissingResource { kind: ResourceKind, name: String, widget: String },
    /// Two widgets have the same fully-qualified id.
    DuplicateId { full_id: String },
    /// The `from` of the widget with local id `widget` names no widget.
    UnknownReference { name: String, widget: String },
    /// `from` references are still pending after the last pass allowed.
    CircularReference,
}

/// An [`Error`] with its strings as sequences of characters.
pub enum ErrorView {
    Name { id: Seq<char> },
    MissingResource { kind: ResourceKind, name: Seq<char>, widget: Seq<char> },
    DuplicateId { full_id: Seq<char> },
    UnknownReference { name: Seq<char>, widget: Seq<char> },
    CircularReference,
}

impl View for Error {
    type V = ErrorView;

    open spec fn view(&self) -> ErrorView {
        match *self {
            Error::Name { id } => ErrorView::Name { id: id@ },
            Error::MissingResource { kind, name, widget } => ErrorView::MissingResource {
                kind,
                name: name@,
                widget: widget@,
            },
            Error::DuplicateId { full_id } => ErrorView::DuplicateId { full_id: full_id@ },
            Error::UnknownReference { name, widget } => ErrorView::UnknownReference {
                name: name@,
                widget: widget@,
            },
            Error::CircularReference => ErrorView::CircularReference,
        }
    }
}

/// The message of an error, which names the widget or the resource that is
/// at fault.
pub open spec fn message_of(e: ErrorView) -> Seq<char> {
    match e {
        ErrorView::Name { id } => "'"@ + id
            + "' theme name invalid.  the '/' character is not allowed"@,
        ErrorView::MissingResource { kind, name, widget } => match kind {
            ResourceKind::Background => "Unable to locate image '"@ + name
                + "' as background for widget '"@ + widget + "'"@,
            ResourceKind::Foreground => "Unable to locate image '"@ + name
                + "' as foreground for widget '"@ + widget + "'"@,
            ResourceKind::Font => "Unable to locate font '"@ + name + "' for widget '"@ + widget
                + "'"@,
        },
        ErrorView::DuplicateId { full_id } => "More than one theme has the id '"@ + full_id + "'"@,
        ErrorView::UnknownReference { name, widget } => "Invalid from theme '"@ + name + "' in '"@
            + widget + "'"@,
        ErrorView::CircularReference =>
            "Unable to resolve all from references after 20 iterations.  This is most likely caused by a circular reference."@,
    }
}

/// The text `first`, then `second`, then `third`, and so on to `fifth`.
fn joined(first: &str, second: &str, third: &str, fourth: &str, fifth: &str) -> (text: String)
    ensures
        text@ == first@ + second@ + third@ + fourth@ + fifth@,
{
    let mut text = String::from_str(first);
    text.append(second);
    text.append(third);
    text.append(fourth);
    text.append(fifth);
    text
}

impl Error {
    /// The message of the error.
    pub fn message(&self) -> (text: String)
        ensures
            text@ == message_of(self@),
    {
        proof {
            reveal_strlit("");
            assert(""@ =~= Seq::<char>::empty());
        }
        match self {
            Error::Name { id } => {
                let text = joined(
                    "'",
                    id.as_str(),
                    "' theme name invalid.  the '/' character is not allowed",
                    "",
                    "",
                );
                assert(text@ =~= message_of(self@));
                text
            },
            Error::MissingResource { kind, name, widget } => {
                let text = match kind {
                    ResourceKind::Background => joined(
                        "Unable to locate image '",
                        name.as_str(),
                        "' as background for widget '",
                        widget.as_str(),
                        "'",
                    ),
                    ResourceKind::Foreground => joined(
                        "Unable to locate image '",
                        name.as_str(),
                        "' as foreground for widget '",
                        widget.as_str(),
                        "'",
                    ),
                    ResourceKind::Font => joined(
                        "Unable to locate font '",
                        name.as_str(),
                        "' for widget '",
                        widget.as_str(),
                        "'",
                    ),
                };
                text
            },
            Error::DuplicateId { full_id } => {
                let text = joined("More than one theme has the id '", full_id.as_str(), "'", "", "");
                assert(text@ =~= message_of(self@));
                text
            },
            Error::UnknownReference { name, widget } => joined(
                "Invalid from theme '",
                name.as_str(),
                "' in '",
                widget.as_str(),
                "'",
            ),
            Error::CircularReference => {
                let text = joined(
                    "Unable to resolve all from references after 20 iterations.  This is most likely caused by a circular reference.",
                    "",
                    "",
                    "",
                    "",
                );
                assert(text@ =~= message_of(self@));
                text
            },
        }
    }
}

} // verus!
