//! The finished theme: every widget theme resolved, to be looked up by its
//! fully-qualified id, and the registered fonts and images, to be looked up
//! by name.

use vstd::prelude::*;
use crate::accepts::{all_admissible, creating_all_succeed};
use crate::arena::{handle_view, Arena, ArenaView};
use crate::builder::{
    created,
    created_all,
    creating_all,
    creating_all_add_no_reference,
    describes,
    nodes_of_all,
    unreferenced,
};
use crate::definition::{definitions_view, ThemeDefinition, WidgetThemeDefinitionView};
use crate::error::{Error, ErrorView};
use crate::inherit::subtree_of;
use crate::resolve::{
    after_passes,
    has_pending,
    resolution_ends,
    resolved,
    resolving_twice,
    MAX_ITERATIONS,
};
use crate::resources::{lookup, table_entries, table_of, Resources, ResourcesView};
use crate::sound::{
    creating_all_keeps_sound,
    empty_is_sound,
    index_is_the_paths,
    is_path,
    resolving_keeps_sound,
    sound,
};
use crate::widget_theme::{
    FontHandle,
    FontSummary,
    ImageHandle,
    WidgetTheme,
    WidgetThemeHandle,
    WidgetThemeView,
};

verus! {

/// The arena of a theme: the records of the top-level `widgets` and of all
/// the widgets below them, in the order of the list and of each list of
/// children, every `from` reference resolved; or the first error met while
/// the records are made, or else while the references are resolved.
pub open spec fn built(
    widgets: Seq<(Seq<char>, WidgetThemeDefinitionView)>,
    res: ResourcesView,
) -> Result<ArenaView, ErrorView> {
    match created_all(ArenaView::empty(), res, widgets, widgets.len()) {
        Err(e) => Err(e),
        Ok(flat) => resolved(flat, MAX_ITERATIONS as nat),
    }
}

/// The error `e` is the one in which the building of the theme ends. An
/// error met while the records are made is that error. Else at most
/// [`MAX_ITERATIONS`] passes are made, none once no reference is pending: the
/// error of a pass, which is a reference to a path that is not indexed, is
/// that error; and where no pass fails, references are still pending after
/// the passes, and the error is that of a circular reference.
pub open spec fn building_fails_with(
    widgets: Seq<(Seq<char>, WidgetThemeDefinitionView)>,
    res: ResourcesView,
    e: ErrorView,
) -> bool {
    match created_all(ArenaView::empty(), res, widgets, widgets.len()) {
        Err(first) => e == first,
        Ok(flat) => match after_passes(flat, MAX_ITERATIONS as nat) {
            Err(failed) => e == failed && e is UnknownReference,
            Ok(b) => e is CircularReference && has_pending(b),
        },
    }
}

/// The widgets are admissible, and none of them, at any depth, has a
/// `from`.
pub open spec fn plain(
    widgets: Seq<(Seq<char>, WidgetThemeDefinitionView)>,
    res: ResourcesView,
) -> bool {
    &&& all_admissible(widgets, res)
    &&& forall|i: int| 0 <= i < widgets.len() ==> unreferenced((#[trigger] widgets[i]).1)
}

/// An error met while the first widgets are added is the error of adding
/// all of them.
proof fn widget_error_stays(
    a: ArenaView,
    res: ResourcesView,
    defs: Seq<(Seq<char>, WidgetThemeDefinitionView)>,
    i: nat,
    n: nat,
    e: ErrorView,
)
    requires
        i <= n <= defs.len(),
        created_all(a, res, defs, i) == Err::<ArenaView, ErrorView>(e),
    ensures
        created_all(a, res, defs, n) == Err::<ArenaView, ErrorView>(e),
    decreases n,
{
    if i < n {
        widget_error_stays(a, res, defs, i, (n - 1) as nat, e);
    }
}

/// Every font of the list has a handle below `count`.
pub open spec fn fonts_within(entries: Seq<(String, FontSummary)>, count: nat) -> bool {
    forall|i: int| 0 <= i < entries.len() ==> (#[trigger] entries[i]).1.handle.id < count
}

/// Every image of the list has a handle below `count`.
pub open spec fn images_within(entries: Seq<(String, ImageHandle)>, count: nat) -> bool {
    forall|i: int| 0 <= i < entries.len() ==> (#[trigger] entries[i]).1.id < count
}

/// A theme, built and resolved: the widget themes by fully-qualified id, and
/// the fonts and images of the renderer, of the types `F` and `I`, by handle
/// and by name. Nothing changes it after it is built.
pub struct ThemeSet<F, I> {
    fonts: Vec<F>,
    images: Vec<I>,
    resources: Resources,
    arena: Arena,
}

/// What a [`ThemeSet`] holds.
pub struct ThemeSetView<F, I> {
    pub fonts: Seq<F>,
    pub font_handles: Map<Seq<char>, FontSummary>,
    pub images: Seq<I>,
    pub image_handles: Map<Seq<char>, ImageHandle>,
    pub themes: Seq<WidgetThemeView>,
    pub handles: Map<Seq<char>, int>,
}

impl<F, I> ThemeSetView<F, I> {
    /// The records and the index.
    pub open spec fn arena(self) -> ArenaView {
        ArenaView { themes: self.themes, handles: self.handles }
    }

    /// The fonts and images by name.
    pub open spec fn resources(self) -> ResourcesView {
        ResourcesView { fonts: self.font_handles, images: self.image_handles }
    }
}

impl<F, I> View for ThemeSet<F, I> {
    type V = ThemeSetView<F, I>;

    closed spec fn view(&self) -> ThemeSetView<F, I> {
        ThemeSetView {
            fonts: self.fonts@,
            font_handles: self.resources@.fonts,
            images: self.images@,
            image_handles: self.resources@.images,
            themes: self.arena@.themes,
            handles: self.arena@.handles,
        }
    }
}

impl<F, I> ThemeSet<F, I> {
    #[verifier::type_invariant]
    spec fn settled(self) -> bool {
        &&& sound(self.arena@)
        &&& !has_pending(self.arena@)
        &&& forall|name: Seq<char>|
            self.resources@.fonts.contains_key(name) ==> (
            #[trigger] self.resources@.fonts[name]).handle.id < self.fonts.len()
        &&& forall|name: Seq<char>|
            self.resources@.images.contains_key(name) ==> (
            #[trigger] self.resources@.images[name]).id < self.images.len()
    }

    /// Builds the theme of the widgets of `definition`. Their definitions
    /// name fonts and images by the names under which `font_handles` and
    /// `image_handles` register what the renderer has made of the fonts and
    /// image sets of the definition; `fonts` and `images` are the renderer's
    /// objects, which the theme keeps for [`ThemeSet::font`] and
    /// [`ThemeSet::image`]: every handle of the two tables must be the place
    /// of an object in its list.
    pub fn new(
        definition: ThemeDefinition,
        fonts: Vec<F>,
        font_handles: Vec<(String, FontSummary)>,
        images: Vec<I>,
        image_handles: Vec<(String, ImageHandle)>,
    ) -> (r: Result<ThemeSet<F, I>, Error>)
        requires
            fonts_within(font_handles@, fonts.len() as nat),
            images_within(image_handles@, images.len() as nat),
        ensures
            match r {
                Ok(set) => {
                    &&& set@.fonts == fonts@
                    &&& set@.images == images@
                    &&& set@.font_handles == table_of(font_handles@)
                    &&& set@.image_handles == table_of(image_handles@)
                    &&& built(definitions_view(definition.widgets@), set@.resources()) == Ok::<
                        ArenaView,
                        ErrorView,
                    >(set@.arena())
                    &&& sound(set@.arena())
                    &&& !has_pending(set@.arena())
                },
                Err(e) => {
                    &&& built(
                        definitions_view(definition.widgets@),
                        ResourcesView {
                            fonts: table_of(font_handles@),
                            images: table_of(image_handles@),
                        },
                    ) == Err::<ArenaView, ErrorView>(e@)
                    &&& building_fails_with(
                        definitions_view(definition.widgets@),
                        ResourcesView {
                            fonts: table_of(font_handles@),
                            images: table_of(image_handles@),
                        },
                        e@,
                    )
                },
            },
            plain(
                definitions_view(definition.widgets@),
                ResourcesView { fonts: table_of(font_handles@), images: table_of(image_handles@) },
            ) ==> {
                &&& r is Ok
                &&& Ok::<ArenaView, ErrorView>(r->Ok_0@.arena()) == created_all(
                    ArenaView::empty(),
                    r->Ok_0@.resources(),
                    definitions_view(definition.widgets@),
                    definition.widgets@.len(),
                )
                &&& r->Ok_0@.themes.len() == nodes_of_all(
                    definitions_view(definition.widgets@),
                    definition.widgets@.len(),
                )
            },
    {
        let resources = Resources::new(font_handles, image_handles);
        proof {
            assert forall|name: Seq<char>| resources@.fonts.contains_key(name) implies (
            #[trigger] resources@.fonts[name]).handle.id < fonts.len() by {
                table_entries(font_handles@, name);
            }
            assert forall|name: Seq<char>| resources@.images.contains_key(name) implies (
            #[trigger] resources@.images[name]).id < images.len() by {
                table_entries(image_handles@, name);
            }
        }
        let widgets = definition.widgets;
        let mut arena = Arena::new();
        let ghost defs = definitions_view(widgets@);
        let mut i: usize = 0;
        while i < widgets.len()
            invariant
                i <= widgets.len(),
                widgets@ == definition.widgets@,
                defs == definitions_view(widgets@),
                resources@ == (ResourcesView {
                    fonts: table_of(font_handles@),
                    images: table_of(image_handles@),
                }),
                arena@.linked(),
                sound(arena@),
                created_all(ArenaView::empty(), resources@, defs, i as nat) == Ok::<ArenaView, ErrorView>(
                    arena@,
                ),
            decreases widgets.len() - i,
        {
            let ghost before = arena@;
            match WidgetTheme::create(
                None,
                widgets[i].0.as_str(),
                &mut arena,
                &widgets[i].1,
                &resources,
            ) {
                Ok(_) => {},
                Err(e) => {
                    proof {
                        assert(created(
                            before,
                            resources@,
                            None,
                            defs[i as int].0,
                            defs[i as int].1,
                        ) == Err::<ArenaView, ErrorView>(e@));
                        widget_error_stays(
                            ArenaView::empty(),
                            resources@,
                            defs,
                            (i + 1) as nat,
                            defs.len(),
                            e@,
                        );
                        building_ends(defs, resources@);
                        if plain(defs, resources@) {
                            building_without_references(defs, resources@);
                        }
                    }
                    return Err(e);
                },
            }
            i += 1;
        }
        proof {
            building_ends(defs, resources@);
            if plain(defs, resources@) {
                building_without_references(defs, resources@);
            }
        }
        match arena.resolve() {
            Ok(()) => {},
            Err(e) => {
                return Err(e);
            },
        }
        Ok(ThemeSet { fonts, images, resources, arena })
    }

    /// The number of fonts.
    pub fn font_count(&self) -> (count: usize)
        ensures
            count == self@.fonts.len(),
    {
        self.fonts.len()
    }

    /// The number of images.
    pub fn image_count(&self) -> (count: usize)
        ensures
            count == self@.images.len(),
    {
        self.images.len()
    }

    /// The font at `handle`.
    pub fn font(&self, handle: FontHandle) -> (font: &F)
        requires
            handle.id < self@.fonts.len(),
        ensures
            *font == self@.fonts[handle.id as int],
    {
        &self.fonts[handle.id]
    }

    /// The image at `handle`.
    pub fn image(&self, handle: ImageHandle) -> (image: &I)
        requires
            handle.id < self@.images.len(),
        ensures
            *image == self@.images[handle.id as int],
    {
        &self.images[handle.id]
    }

    /// The widget theme with the fully-qualified id `id`.
    pub fn theme(&self, id: &str) -> (theme: Option<&WidgetTheme>)
        ensures
            match theme {
                Some(theme) => {
                    &&& self@.handles.contains_key(id@)
                    &&& 0 <= self@.handles[id@] < self@.themes.len()
                    &&& theme@ == self@.themes[self@.handles[id@]]
                    &&& theme@.full_id == id@
                    &&& theme@.from is None
                },
                None => !self@.handles.contains_key(id@),
            },
    {
        proof {
            use_type_invariant(self);
        }
        match self.arena.handle(id) {
            Some(handle) => Some(self.arena.get(handle)),
            None => None,
        }
    }

    /// The font registered under `id`, if an id is given and a font is
    /// registered under it. Its handle is the place of a font of the theme,
    /// which [`ThemeSet::font`] gives.
    pub fn find_font(&self, id: Option<&str>) -> (font: Option<FontSummary>)
        ensures
            font == match id {
                Some(name) => lookup(self@.font_handles, name@),
                None => None,
            },
            font matches Some(summary) ==> summary.handle.id < self@.fonts.len(),
    {
        proof {
            use_type_invariant(self);
        }
        match id {
            None => None,
            Some(id) => self.resources.find_font(id),
        }
    }

    /// The image registered under `id`, if an id is given and an image is
    /// registered under it. The handle is the place of an image of the theme,
    /// which [`ThemeSet::image`] gives.
    pub fn find_image(&self, id: Option<&str>) -> (image: Option<ImageHandle>)
        ensures
            image == match id {
                Some(name) => lookup(self@.image_handles, name@),
                None => None,
            },
            image matches Some(handle) ==> handle.id < self@.images.len(),
    {
        proof {
            use_type_invariant(self);
        }
        match id {
            None => None,
            Some(id) => self.resources.find_image(id),
        }
    }

    /// The handle of the widget theme with the fully-qualified id `id`.
    pub fn handle(&self, id: &str) -> (handle: Option<WidgetThemeHandle>)
        ensures
            handle_view(handle) == lookup(self@.handles, id@),
            handle matches Some(h) ==> h.id < self@.themes.len(),
    {
        proof {
            use_type_invariant(self);
        }
        self.arena.handle(id)
    }
}

/// The arena of a theme is a function of the widget definitions and of the
/// registered resources: two builds from the same definitions and resources
/// end in the same records, with the same values in every field, and in the
/// same index of fully-qualified ids, or in the same error.
pub proof fn builds_agree(
    widgets: Seq<(Seq<char>, WidgetThemeDefinitionView)>,
    res: ResourcesView,
    first: Result<ArenaView, ErrorView>,
    second: Result<ArenaView, ErrorView>,
)
    requires
        first == built(widgets, res),
        second == built(widgets, res),
    ensures
        first == second,
        first matches Ok(a) ==> second matches Ok(b) && a.themes == b.themes && a.handles.dom()
            == b.handles.dom(),
{
}

/// How the building of a theme ends. The records are made first, and an
/// error met there is the result. Then at most [`MAX_ITERATIONS`] passes are
/// made, none once no reference is pending. The error of a pass, a reference
/// to a path that is not indexed, is the result; else references that are
/// still pending after the passes are the error of a circular reference; else
/// the arena after the passes is the result.
pub proof fn building_ends(
    widgets: Seq<(Seq<char>, WidgetThemeDefinitionView)>,
    res: ResourcesView,
)
    ensures
        built(widgets, res) == match created_all(ArenaView::empty(), res, widgets, widgets.len()) {
            Err(e) => Err::<ArenaView, ErrorView>(e),
            Ok(flat) => match after_passes(flat, MAX_ITERATIONS as nat) {
                Err(e) => Err(e),
                Ok(b) => if has_pending(b) {
                    Err(ErrorView::CircularReference)
                } else {
                    Ok(b)
                },
            },
        },
        built(widgets, res) matches Err(e) ==> building_fails_with(widgets, res, e),
{
    match created_all(ArenaView::empty(), res, widgets, widgets.len()) {
        Err(_) => {},
        Ok(flat) => {
            resolution_ends(flat, MAX_ITERATIONS as nat);
        },
    }
}

/// The arena of a theme that could be built is sound, and no reference is
/// pending in it.
pub proof fn built_is_sound(
    widgets: Seq<(Seq<char>, WidgetThemeDefinitionView)>,
    res: ResourcesView,
)
    requires
        built(widgets, res) is Ok,
    ensures
        sound(built(widgets, res)->Ok_0),
        !has_pending(built(widgets, res)->Ok_0),
{
    empty_is_sound();
    creating_all_keeps_sound(ArenaView::empty(), res, widgets, widgets.len());
    let flat = created_all(ArenaView::empty(), res, widgets, widgets.len())->Ok_0;
    resolving_keeps_sound(flat, MAX_ITERATIONS as nat);
    resolving_twice(
        flat,
        built(widgets, res)->Ok_0,
        MAX_ITERATIONS as nat,
        MAX_ITERATIONS as nat,
    );
}

/// A theme none of whose widgets, at any depth, has a `from`, and all of
/// whose widgets are admissible, is built without error, and resolution
/// changes nothing of what the builder made. The arena holds one record for
/// each widget of the definition, each as its definition describes it: with
/// the fields that its author set, and no other, and with children of the
/// local ids of the definition. The index holds the paths of these records
/// and no other path.
pub proof fn building_without_references(
    widgets: Seq<(Seq<char>, WidgetThemeDefinitionView)>,
    res: ResourcesView,
)
    requires
        plain(widgets, res),
    ensures
        ({
            let b = built(widgets, res)->Ok_0;
            &&& built(widgets, res) is Ok
            &&& built(widgets, res) == created_all(
                ArenaView::empty(),
                res,
                widgets,
                widgets.len(),
            )
            &&& sound(b)
            &&& b.themes.len() == nodes_of_all(widgets, widgets.len())
            &&& forall|i: int|
                0 <= i < widgets.len() ==> describes(
                    (#[trigger] widgets[i]).1,
                    res,
                    widgets[i].0,
                    widgets[i].0,
                    subtree_of(b.themes, nodes_of_all(widgets, i as nat) as int),
                )
            &&& forall|k: Seq<char>| b.handles.contains_key(k) <==> is_path(b, k)
        }),
{
    creating_all_succeed(res, widgets, widgets.len());
    let flat = created_all(ArenaView::empty(), res, widgets, widgets.len())->Ok_0;
    creating_all(ArenaView::empty(), res, widgets, widgets.len());
    creating_all_add_no_reference(ArenaView::empty(), res, widgets, widgets.len());
    assert(!has_pending(flat));
    empty_is_sound();
    creating_all_keeps_sound(ArenaView::empty(), res, widgets, widgets.len());
    index_is_the_paths(flat);
}

} // verus!
