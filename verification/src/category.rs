//! The two vocabularies shared by every other module: `Category` (where an
//! item is filed) and `Kind` (what `new`/`daily` create).

use vstd::prelude::*;

verus! {

/// Where an item is filed. `Project` and `Area` items are directories with
/// an `index` file; `Inbox` and `Resource` items are single flat files;
/// `Archive` keeps each item under a subfolder named for its origin.
#[derive(Debug, Clone, Copy, PartialEq, Eq, Structural)]
pub enum Category {
    Inbox,
    Project,
    Area,
    Resource,
    Archive,
}

/// The position of a category in the five-slot tables indexed by category
/// (`Config::category_dirs`, status counts): Inbox, Project, Area,
/// Resource, Archive.
pub open spec fn category_index(c: Category) -> int {
    match c {
        Category::Inbox => 0,
        Category::Project => 1,
        Category::Area => 2,
        Category::Resource => 3,
        Category::Archive => 4,
    }
}

/// The category stored at position `i` of a five-slot table.
pub open spec fn category_at(i: int) -> Category {
    if i == 0 {
        Category::Inbox
    } else if i == 1 {
        Category::Project
    } else if i == 2 {
        Category::Area
    } else if i == 3 {
        Category::Resource
    } else {
        Category::Archive
    }
}

pub open spec fn spec_is_directory_style(c: Category) -> bool {
    c == Category::Project || c == Category::Area
}

/// Subfolder under the archive that an item of category `c` is filed in.
pub open spec fn spec_archive_origin_name(c: Category) -> Seq<char> {
    match c {
        Category::Inbox => "Inbox"@,
        Category::Project => "Projects"@,
        Category::Area => "Areas"@,
        Category::Resource => "Resources"@,
        Category::Archive => Seq::empty(),
    }
}

pub open spec fn spec_display_name(c: Category) -> Seq<char> {
    match c {
        Category::Inbox => "Inbox"@,
        Category::Project => "Projects"@,
        Category::Area => "Areas"@,
        Category::Resource => "Resources"@,
        Category::Archive => "Archive"@,
    }
}

pub open spec fn spec_key(c: Category) -> Seq<char> {
    match c {
        Category::Inbox => "inbox"@,
        Category::Project => "project"@,
        Category::Area => "area"@,
        Category::Resource => "resource"@,
        Category::Archive => "archive"@,
    }
}

/// The four categories an item can be archived from, in search order.
pub open spec fn spec_archivable() -> Seq<Category> {
    seq![Category::Inbox, Category::Project, Category::Area, Category::Resource]
}

impl Category {
    /// True for the categories whose items are directories (`Project`,
    /// `Area`).
    pub fn is_directory_style(&self) -> (r: bool)
        ensures
            r == spec_is_directory_style(*self),
    {
        match self {
            Category::Project | Category::Area => true,
            _ => false,
        }
    }

    /// The fixed subfolder name under `Archive` an item of this category is
    /// filed under when archived, e.g. `Category::Project` -> `"Projects"`.
    /// `Archive` itself has none.
    pub fn archive_origin_name(&self) -> (r: &'static str)
        requires
            *self != Category::Archive,
        ensures
            r@ == spec_archive_origin_name(*self),
    {
        match self {
            Category::Inbox => "Inbox",
            Category::Project => "Projects",
            Category::Area => "Areas",
            Category::Resource => "Resources",
            Category::Archive => "",
        }
    }

    /// The four categories an item can be archived from: every variant
    /// except `Archive`, in the order searches visit them.
    pub fn archivable() -> (r: [Category; 4])
        ensures
            r@ == spec_archivable(),
    {
        let r = [Category::Inbox, Category::Project, Category::Area, Category::Resource];
        assert(r@ =~= spec_archivable());
        r
    }

    /// Plural display name for user-facing messages, covering all five
    /// variants.
    pub fn display_name(&self) -> (r: &'static str)
        ensures
            r@ == spec_display_name(*self),
    {
        match self {
            Category::Inbox => "Inbox",
            Category::Project => "Projects",
            Category::Area => "Areas",
            Category::Resource => "Resources",
            Category::Archive => "Archive",
        }
    }

    /// Singular lowercase name for machine-readable output.
    pub fn key(&self) -> (r: &'static str)
        ensures
            r@ == spec_key(*self),
    {
        match self {
            Category::Inbox => "inbox",
            Category::Project => "project",
            Category::Area => "area",
            Category::Resource => "resource",
            Category::Archive => "archive",
        }
    }

    /// Position of this category in five-slot tables.
    pub fn index(&self) -> (r: usize)
        ensures
            r as int == category_index(*self),
            r < 5,
            category_at(r as int) == *self,
    {
        match self {
            Category::Inbox => 0,
            Category::Project => 1,
            Category::Area => 2,
            Category::Resource => 3,
            Category::Archive => 4,
        }
    }
}

/// What `new`/`daily` create. `Daily` files into the Inbox with its own
/// template.
#[derive(Debug, Clone, Copy, PartialEq, Eq, Structural)]
pub enum Kind {
    Inbox,
    Project,
    Area,
    Resource,
    Daily,
}

pub open spec fn spec_kind_category(k: Kind) -> Category {
    match k {
        Kind::Inbox | Kind::Daily => Category::Inbox,
        Kind::Project => Category::Project,
        Kind::Area => Category::Area,
        Kind::Resource => Category::Resource,
    }
}

impl Kind {
    /// The `Category` this kind files into. `Daily` maps to `Inbox`.
    pub fn category(&self) -> (r: Category)
        ensures
            r == spec_kind_category(*self),
    {
        match self {
            Kind::Inbox | Kind::Daily => Category::Inbox,
            Kind::Project => Category::Project,
            Kind::Area => Category::Area,
            Kind::Resource => Category::Resource,
        }
    }
}

/// No kind files into the archive: items only arrive there by a move.
pub proof fn lemma_kind_never_files_into_archive(k: Kind)
    ensures
        spec_kind_category(k) != Category::Archive,
{
}

/// The four archivable categories are exactly the ones other than
/// `Archive`.
pub proof fn lemma_archivable_is_everything_but_archive(c: Category)
    ensures
        spec_archivable().contains(c) <==> c != Category::Archive,
{
    if c != Category::Archive {
        assert(spec_archivable()[category_index(c)] == c);
    }
}

/// Archive origin names and display names agree on every archivable
/// category.
pub proof fn lemma_origin_name_matches_display_name(c: Category)
    requires
        c != Category::Archive,
    ensures
        spec_archive_origin_name(c) == spec_display_name(c),
{
}

/// Table positions and categories are in one-to-one correspondence.
pub proof fn lemma_category_index_round_trip(c: Category, i: int)
    requires
        0 <= i < 5,
    ensures
        category_at(category_index(c)) == c,
        category_index(category_at(i)) == i,
{
}

} // verus!
