//! The resource binder: the registered fonts and images by name, and the
//! binding of the names in a widget definition to them.

use vstd::prelude::*;
use vstd::hash_map::StringHashMap;
use crate::definition::{WidgetThemeDefinition, WidgetThemeDefinitionView};
use crate::error::{Error, ErrorView, ResourceKind};
use crate::widget_theme::{FontSummary, ImageHandle};

verus! {

/// The table that a list of named entries stands for: a later entry of the
/// same name replaces an earlier one.
pub open spec fn table_of<T>(entries: Seq<(String, T)>) -> Map<Seq<char>, T>
    decreases entries.len(),
{
    if entries.len() == 0 {
        Map::empty()
    } else {
        table_of(entries.drop_last()).insert(entries.last().0@, entries.last().1)
    }
}

/// What a table holds under a name is what one of the entries of its list
/// holds under that name.
pub proof fn table_entries<T>(entries: Seq<(String, T)>, name: Seq<char>)
    requires
        table_of(entries).contains_key(name),
    ensures
        exists|i: int|
            0 <= i < entries.len() && (#[trigger] entries[i]).0@ == name && entries[i].1
                == table_of(entries)[name],
    decreases entries.len(),
{
    if entries.len() > 0 {
        let last = entries.len() - 1;
        if entries[last].0@ == name {
            assert(entries[last].1 == table_of(entries)[name]);
        } else {
            table_entries(entries.drop_last(), name);
            let i = choose|i: int|
                0 <= i < entries.drop_last().len() && (#[trigger] entries.drop_last()[i]).0@ == name
                    && entries.drop_last()[i].1 == table_of(entries.drop_last())[name];
            assert(entries[i].0@ == name);
        }
    }
}

/// The entry of a table under a name, if there is one.
pub open spec fn lookup<T>(table: Map<Seq<char>, T>, name: Seq<char>) -> Option<T> {
    if table.contains_key(name) {
        Some(table[name])
    } else {
        None
    }
}

/// The registered fonts and images, each by the name under which widget
/// definitions refer to it.
pub struct Resources {
    fonts: StringHashMap<FontSummary>,
    images: StringHashMap<ImageHandle>,
}

/// The two tables of [`Resources`].
pub struct ResourcesView {
    pub fonts: Map<Seq<char>, FontSummary>,
    pub images: Map<Seq<char>, ImageHandle>,
}

impl View for Resources {
    type V = ResourcesView;

    closed spec fn view(&self) -> ResourcesView {
        ResourcesView { fonts: self.fonts@, images: self.images@ }
    }
}

impl Resources {
    /// The tables of the given fonts and images.
    pub fn new(fonts: Vec<(String, FontSummary)>, images: Vec<(String, ImageHandle)>) -> (resources:
        Resources)
        ensures
            resources@.fonts == table_of(fonts@),
            resources@.images == table_of(images@),
    {
        let mut font_table: StringHashMap<FontSummary> = StringHashMap::new();
        let mut i: usize = 0;
        while i < fonts.len()
            invariant
                i <= fonts.len(),
                font_table@ == table_of(fonts@.take(i as int)),
            decreases fonts.len() - i,
        {
            assert(fonts@.take(i + 1).drop_last() =~= fonts@.take(i as int));
            font_table.insert(fonts[i].0.clone(), fonts[i].1);
            i += 1;
        }
        assert(fonts@.take(i as int) =~= fonts@);
        let mut image_table: StringHashMap<ImageHandle> = StringHashMap::new();
        let mut j: usize = 0;
        while j < images.len()
            invariant
                j <= images.len(),
                image_table@ == table_of(images@.take(j as int)),
            decreases images.len() - j,
        {
            assert(images@.take(j + 1).drop_last() =~= images@.take(j as int));
            image_table.insert(images[j].0.clone(), images[j].1);
            j += 1;
        }
        assert(images@.take(j as int) =~= images@);
        Resources { fonts: font_table, images: image_table }
    }

    /// The font registered under `id`.
    pub fn find_font(&self, id: &str) -> (font: Option<FontSummary>)
        ensures
            font == lookup(self@.fonts, id@),
    {
        match self.fonts.get(id) {
            Some(font) => Some(*font),
            None => None,
        }
    }

    /// The image registered under `id`.
    pub fn find_image(&self, id: &str) -> (image: Option<ImageHandle>)
        ensures
            image == lookup(self@.images, id@),
    {
        match self.images.get(id) {
            Some(image) => Some(*image),
            None => None,
        }
    }
}

/// What the resource names of one widget definition are bound to.
#[derive(Copy, Clone, Debug, PartialEq, Eq, Structural)]
pub struct Bound {
    pub background: Option<ImageHandle>,
    pub foreground: Option<ImageHandle>,
    pub font: Option<FontSummary>,
}

/// The first resource name of a definition, in the order background,
/// foreground, font, that is not registered.
pub open spec fn missing(res: ResourcesView, def: WidgetThemeDefinitionView) -> Option<
    (ResourceKind, Seq<char>),
> {
    if def.background is Some && !res.images.contains_key(def.background->0) {
        Some((ResourceKind::Background, def.background->0))
    } else if def.foreground is Some && !res.images.contains_key(def.foreground->0) {
        Some((ResourceKind::Foreground, def.foreground->0))
    } else if def.font is Some && !res.fonts.contains_key(def.font->0) {
        Some((ResourceKind::Font, def.font->0))
    } else {
        None
    }
}

/// What the resource names of a definition stand for, where all of them are
/// registered.
pub open spec fn bindings(res: ResourcesView, def: WidgetThemeDefinitionView) -> Bound {
    Bound {
        background: match def.background {
            Some(name) => Some(res.images[name]),
            None => None,
        },
        foreground: match def.foreground {
            Some(name) => Some(res.images[name]),
            None => None,
        },
        font: match def.font {
            Some(name) => Some(res.fonts[name]),
            None => None,
        },
    }
}

impl Resources {
    /// Binds the resource names of a widget definition to what is
    /// registered under them. `widget` is the fully-qualified id of the
    /// widget, for the error.
    pub fn bind(&self, def: &WidgetThemeDefinition, widget: &str) -> (r: Result<Bound, Error>)
        ensures
            match r {
                Ok(bound) => missing(self@, def@) is None && bound == bindings(self@, def@),
                Err(e) => missing(self@, def@) matches Some(m) && e@ == (ErrorView::MissingResource {
                    kind: m.0,
                    name: m.1,
                    widget: widget@,
                }),
            },
    {
        let background = match &def.background {
            None => None,
            Some(name) => match self.find_image(name.as_str()) {
                Some(image) => Some(image),
                None => {
                    return Err(
                        Error::MissingResource {
                            kind: ResourceKind::Background,
                            name: name.clone(),
                            widget: String::from_str(widget),
                        },
                    );
                },
            },
        };
        let foreground = match &def.foreground {
            None => None,
            Some(name) => match self.find_image(name.as_str()) {
                Some(image) => Some(image),
                None => {
                    return Err(
                        Error::MissingResource {
                            kind: ResourceKind::Foreground,
                            name: name.clone(),
                            widget: String::from_str(widget),
                        },
                    );
                },
            },
        };
        let font = match &def.font {
            None => None,
            Some(name) => match self.find_font(name.as_str()) {
                Some(font) => Some(font),
                None => {
                    return Err(
                        Error::MissingResource {
                            kind: ResourceKind::Font,
                            name: name.clone(),
                            widget: String::from_str(widget),
                        },
                    );
                },
            },
        };
        Ok(Bound { background, foreground, font })
    }
}

} // verus!
