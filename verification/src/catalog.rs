//! The sound catalog as the sound board reports it: a list whose entries
//! are sounds, the tree of categories, and the hotbar.

use vstd::prelude::*;

verus! {

/// The whole catalog: its top-level entries, in document order.
#[derive(Debug)]
pub struct SoundListAndCategories {
    pub sounds_or_categories: Vec<SoundOrCategories>,
}

/// One top-level entry of the catalog.
#[derive(Debug)]
pub enum SoundOrCategories {
    Sound(Sound),
    Categories(Categories),
    Hotbar(Hotbar),
}

/// The top-level categories, in document order.
#[derive(Debug)]
pub struct Categories {
    pub categories: Vec<Category>,
}

/// A category: its attributes, each of which may be absent, and what it
/// holds. A category may hold categories in turn.
#[derive(Debug)]
pub struct Category {
    /// The sounds and sub-categories of this category, in document order;
    /// `None` for a category without content.
    pub sounds_and_categories: Option<Vec<SoundOrCategory>>,
    /// The `type` attribute.
    pub kind: Option<String>,
    pub hidden: Option<bool>,
    pub name: Option<String>,
    /// The icon; an empty attribute counts as no icon.
    pub icon: Option<String>,
    pub index: Option<u64>,
    pub key_modifiers: Option<u64>,
    pub key: Option<u64>,
}

/// One entry of a category.
#[derive(Debug)]
pub enum SoundOrCategory {
    Category(Category),
    Sound(CategorySound),
}

/// A sound of the list, known by where its file is.
#[derive(Debug)]
pub struct Sound {
    pub url: String,
}

/// The hotbar. Nothing of it is read.
#[derive(Debug)]
pub struct Hotbar {
}

/// A sound inside a category: a reference, by number, to a sound of the list.
#[derive(Debug)]
pub struct CategorySound {
    pub id: u64,
}

/// What a category says, apart from how it lies in memory.
pub struct CategoryView {
    pub content: Option<Seq<EntryView>>,
    pub kind: Option<Seq<char>>,
    pub hidden: Option<bool>,
    pub name: Option<Seq<char>>,
    pub icon: Option<Seq<char>>,
    pub index: Option<u64>,
    pub key_modifiers: Option<u64>,
    pub key: Option<u64>,
}

/// What an entry of a category says: a category, or the number of a sound.
pub enum EntryView {
    Category(CategoryView),
    Sound(u64),
}

/// The characters of an attribute, if it is there.
pub open spec fn text_view(text: Option<String>) -> Option<Seq<char>> {
    match text {
        Some(text) => Some(text@),
        None => None,
    }
}

/// What `category` says, all the way down.
pub open spec fn category_view(category: Category) -> CategoryView
    decreases category,
{
    CategoryView {
        content: match category.sounds_and_categories {
            Some(entries) => Some(entries_view(entries@)),
            None => None,
        },
        kind: text_view(category.kind),
        hidden: category.hidden,
        name: text_view(category.name),
        icon: text_view(category.icon),
        index: category.index,
        key_modifiers: category.key_modifiers,
        key: category.key,
    }
}

/// What each of `entries` says, in the same order. (The sequence is never
/// asked beyond its length; the other branch only bounds the recursion.)
pub open spec fn entries_view(entries: Seq<SoundOrCategory>) -> Seq<EntryView>
    decreases entries,
{
    Seq::new(
        entries.len(),
        |i: int|
            if 0 <= i < entries.len() {
                entry_view(entries[i])
            } else {
                EntryView::Sound(0)
            },
    )
}

/// What `entry` says.
pub open spec fn entry_view(entry: SoundOrCategory) -> EntryView
    decreases entry,
{
    match entry {
        SoundOrCategory::Category(category) => EntryView::Category(category_view(category)),
        SoundOrCategory::Sound(sound) => EntryView::Sound(sound.id),
    }
}

fn copy_text(text: &Option<String>) -> (out: Option<String>)
    ensures
        text_view(out) == text_view(*text),
{
    match text {
        Some(text) => Some(text.clone()),
        None => None,
    }
}

fn copy_entries(entries: &Vec<SoundOrCategory>) -> (out: Vec<SoundOrCategory>)
    ensures
        entries_view(out@) == entries_view(entries@),
    decreases *entries, 0nat,
{
    let mut out: Vec<SoundOrCategory> = Vec::new();
    let mut i: usize = 0;
    while i < entries.len()
        invariant
            i <= entries.len(),
            out@.len() == i,
            forall|j: int| 0 <= j < i ==> entry_view(#[trigger] out@[j]) == entry_view(entries@[j]),
        decreases entries.len() - i,
    {
        let copy = copy_entry(&entries[i]);
        out.push(copy);
        i += 1;
    }
    assert(entries_view(out@) =~= entries_view(entries@));
    out
}

fn copy_entry(entry: &SoundOrCategory) -> (out: SoundOrCategory)
    ensures
        entry_view(out) == entry_view(*entry),
    decreases *entry, 1nat,
{
    match entry {
        SoundOrCategory::Category(category) => SoundOrCategory::Category(copy_category(category)),
        SoundOrCategory::Sound(sound) => SoundOrCategory::Sound(CategorySound { id: sound.id }),
    }
}

fn copy_category(category: &Category) -> (out: Category)
    ensures
        category_view(out) == category_view(*category),
    decreases *category, 1nat,
{
    let content = match &category.sounds_and_categories {
        Some(entries) => Some(copy_entries(entries)),
        None => None,
    };
    Category {
        sounds_and_categories: content,
        kind: copy_text(&category.kind),
        hidden: category.hidden,
        name: copy_text(&category.name),
        icon: copy_text(&category.icon),
        index: category.index,
        key_modifiers: category.key_modifiers,
        key: category.key,
    }
}

/// What a top-level entry of the catalog says.
pub enum TopEntryView {
    /// A sound, by the characters of its location.
    Sound(Seq<char>),
    Categories(Seq<CategoryView>),
    Hotbar,
}

/// What each of `categories` says, in the same order.
pub open spec fn categories_view(categories: Seq<Category>) -> Seq<CategoryView> {
    Seq::new(categories.len(), |i: int| category_view(categories[i]))
}

/// What `entry` says.
pub open spec fn top_entry_view(entry: SoundOrCategories) -> TopEntryView {
    match entry {
        SoundOrCategories::Sound(sound) => TopEntryView::Sound(sound.url@),
        SoundOrCategories::Categories(categories) => TopEntryView::Categories(
            categories_view(categories.categories@),
        ),
        SoundOrCategories::Hotbar(_) => TopEntryView::Hotbar,
    }
}

/// What each of `entries` says, in the same order.
pub open spec fn top_entries_view(entries: Seq<SoundOrCategories>) -> Seq<TopEntryView> {
    Seq::new(entries.len(), |i: int| top_entry_view(entries[i]))
}

impl View for Category {
    type V = CategoryView;

    open spec fn view(&self) -> CategoryView {
        category_view(*self)
    }
}

impl View for SoundOrCategory {
    type V = EntryView;

    open spec fn view(&self) -> EntryView {
        entry_view(*self)
    }
}

impl View for Categories {
    type V = Seq<CategoryView>;

    open spec fn view(&self) -> Seq<CategoryView> {
        categories_view(self.categories@)
    }
}

impl View for SoundOrCategories {
    type V = TopEntryView;

    open spec fn view(&self) -> TopEntryView {
        top_entry_view(*self)
    }
}

impl View for SoundListAndCategories {
    type V = Seq<TopEntryView>;

    open spec fn view(&self) -> Seq<TopEntryView> {
        top_entries_view(self.sounds_or_categories@)
    }
}

impl Clone for Sound {
    fn clone(&self) -> (out: Sound)
        ensures
            out.url@ == self.url@,
    {
        Sound { url: self.url.clone() }
    }
}

impl Clone for Hotbar {
    fn clone(&self) -> (out: Hotbar)
        ensures
            out == *self,
    {
        Hotbar {  }
    }
}

impl Clone for CategorySound {
    fn clone(&self) -> (out: CategorySound)
        ensures
            out == *self,
    {
        CategorySound { id: self.id }
    }
}

impl Clone for Category {
    /// A copy that says the same, all the way down.
    fn clone(&self) -> (out: Category)
        ensures
            out@ == self@,
    {
        copy_category(self)
    }
}

impl Clone for SoundOrCategory {
    /// A copy that says the same, all the way down.
    fn clone(&self) -> (out: SoundOrCategory)
        ensures
            out@ == self@,
    {
        copy_entry(self)
    }
}

impl Clone for Categories {
    /// A copy that holds the same categories in the same order.
    fn clone(&self) -> (out: Categories)
        ensures
            out@ == self@,
    {
        let mut categories: Vec<Category> = Vec::new();
        let mut i: usize = 0;
        while i < self.categories.len()
            invariant
                i <= self.categories.len(),
                categories@.len() == i,
                forall|j: int|
                    0 <= j < i ==> category_view(#[trigger] categories@[j]) == category_view(
                        self.categories@[j],
                    ),
            decreases self.categories.len() - i,
        {
            let copy = copy_category(&self.categories[i]);
            categories.push(copy);
            i += 1;
        }
        assert(categories_view(categories@) =~= categories_view(self.categories@));
        Categories { categories }
    }
}

impl Clone for SoundOrCategories {
    /// A copy that says the same, all the way down.
    fn clone(&self) -> (out: SoundOrCategories)
        ensures
            out@ == self@,
    {
        match self {
            SoundOrCategories::Sound(sound) => SoundOrCategories::Sound(sound.clone()),
            SoundOrCategories::Categories(categories) => SoundOrCategories::Categories(
                categories.clone(),
            ),
            SoundOrCategories::Hotbar(hotbar) => SoundOrCategories::Hotbar(hotbar.clone()),
        }
    }
}

impl Clone for SoundListAndCategories {
    /// A copy that holds the same entries in the same order.
    fn clone(&self) -> (out: SoundListAndCategories)
        ensures
            out@ == self@,
    {
        let mut entries: Vec<SoundOrCategories> = Vec::new();
        let mut i: usize = 0;
        while i < self.sounds_or_categories.len()
            invariant
                i <= self.sounds_or_categories.len(),
                entries@.len() == i,
                forall|j: int|
                    0 <= j < i ==> top_entry_view(#[trigger] entries@[j]) == top_entry_view(
                        self.sounds_or_categories@[j],
                    ),
            decreases self.sounds_or_categories.len() - i,
        {
            let copy = self.sounds_or_categories[i].clone();
            entries.push(copy);
            i += 1;
        }
        assert(top_entries_view(entries@) =~= top_entries_view(self.sounds_or_categories@));
        SoundListAndCategories { sounds_or_categories: entries }
    }
}

} // verus!
