use vstd::prelude::*;

use crate::text::{str_eq, views};

verus! {

/// A budget category that spendings are booked against.
#[derive(Clone, Copy, Debug, PartialEq, Eq, Structural)]
pub enum Category {
    FoodAndDrinks,
    OperationalSpends,
    Rent,
    UkrReponsibilities,
}

/// The human-readable name of a category, as shown to users and used as
/// the category's tag name in the spending database.
pub open spec fn category_name(c: Category) -> Seq<char> {
    match c {
        Category::FoodAndDrinks => "Поживні речовини"@,
        Category::OperationalSpends => "Операційні витрати"@,
        Category::Rent => "Аренда"@,
        Category::UkrReponsibilities => "Українські зобовʼязання"@,
    }
}

/// The category whose name is exactly `s`, if there is one.
pub open spec fn parse_category(s: Seq<char>) -> Option<Category> {
    if s == "Поживні речовини"@ {
        Some(Category::FoodAndDrinks)
    } else if s == "Операційні витрати"@ {
        Some(Category::OperationalSpends)
    } else if s == "Аренда"@ {
        Some(Category::Rent)
    } else if s == "Українські зобовʼязання"@ {
        Some(Category::UkrReponsibilities)
    } else {
        None
    }
}

/// The identifier of the category's tag in the spending database.
pub open spec fn storage_id(c: Category) -> Seq<char> {
    match c {
        Category::FoodAndDrinks => "de702077-821a-4b59-9ab0-949ca954c4a6"@,
        Category::OperationalSpends => "3e392471-bd4a-4cde-befb-e52e8f31b26d"@,
        Category::Rent => "278a679f-cde4-44aa-be5a-2876b67d080b"@,
        Category::UkrReponsibilities => "M?[|"@,
    }
}

/// When money is added to a category, as cron schedules (seconds first).
pub open spec fn replenishment_schedules(c: Category) -> Seq<Seq<char>> {
    match c {
        Category::FoodAndDrinks | Category::OperationalSpends => seq![
            "0 0 0 15 * *"@,
            "0 0 0 15 * *"@,
        ],
        Category::Rent | Category::UkrReponsibilities => seq!["0 0 0 1 * *"@],
    }
}

/// How much money a category receives each time it is replenished, in
/// whole euros.
pub open spec fn replenishment_amount(c: Category) -> u32 {
    match c {
        Category::FoodAndDrinks => 155,
        Category::OperationalSpends => 250,
        Category::UkrReponsibilities => 310,
        Category::Rent => 1140,
    }
}

/// The title of the page that opens a new period for a category.
pub open spec fn replenishment_title(c: Category) -> Seq<char> {
    category_name(c) + " - бот відкриває період"@
}

impl Category {
    /// The category's display name.
    pub fn to_string(&self) -> (r: String)
        ensures
            r@ == category_name(*self),
    {
        match self {
            Category::FoodAndDrinks => String::from_str("Поживні речовини"),
            Category::OperationalSpends => String::from_str("Операційні витрати"),
            Category::Rent => String::from_str("Аренда"),
            Category::UkrReponsibilities => String::from_str("Українські зобовʼязання"),
        }
    }

    /// Reads a category back from its display name; any other text is refused.
    pub fn from_str(s: &str) -> (r: Result<Category, ()>)
        ensures
            r is Ok <==> parse_category(s@) is Some,
            r matches Ok(c) ==> parse_category(s@) == Some(c),
    {
        if str_eq(s, "Поживні речовини") {
            Ok(Category::FoodAndDrinks)
        } else if str_eq(s, "Операційні витрати") {
            Ok(Category::OperationalSpends)
        } else if str_eq(s, "Аренда") {
            Ok(Category::Rent)
        } else if str_eq(s, "Українські зобовʼязання") {
            Ok(Category::UkrReponsibilities)
        } else {
            Err(())
        }
    }

    /// The identifier of the category's tag in the spending database.
    pub fn to_storage_id(&self) -> (r: &str)
        ensures
            r@ == storage_id(*self),
    {
        match self {
            Category::FoodAndDrinks => "de702077-821a-4b59-9ab0-949ca954c4a6",
            Category::OperationalSpends => "3e392471-bd4a-4cde-befb-e52e8f31b26d",
            Category::Rent => "278a679f-cde4-44aa-be5a-2876b67d080b",
            Category::UkrReponsibilities => "M?[|",
        }
    }

    /// The title of the page that opens a new period for this category.
    pub fn replenishment_title(&self) -> (r: String)
        ensures
            r@ == replenishment_title(*self),
            r@.take(category_name(*self).len() as int) == category_name(*self),
    {
        self.to_string().concat(" - бот відкриває період")
    }
}

impl core::str::FromStr for Category {
    type Err = ();

    fn from_str(s: &str) -> (r: Result<Category, ()>)
        ensures
            r is Ok <==> parse_category(s@) is Some,
            r matches Ok(c) ==> parse_category(s@) == Some(c),
    {
        Category::from_str(s)
    }
}

/// Something that money is added to on a schedule.
pub trait ToSchedule {
    /// The cron schedules on which money is added.
    fn replenish_money_schedules(&self) -> Vec<String>;
}

impl ToSchedule for Category {
    fn replenish_money_schedules(&self) -> (r: Vec<String>)
        ensures
            views(r@) == replenishment_schedules(*self),
    {
        let mut r: Vec<String> = Vec::new();
        match self {
            Category::FoodAndDrinks | Category::OperationalSpends => {
                r.push(String::from_str("0 0 0 15 * *"));
                r.push(String::from_str("0 0 0 15 * *"));
            },
            Category::Rent | Category::UkrReponsibilities => {
                r.push(String::from_str("0 0 0 1 * *"));
            },
        }
        assert(views(r@) =~= replenishment_schedules(*self));
        r
    }
}

/// Something that receives a fixed amount of money when replenished.
pub trait ToMoneyReplenishment {
    /// The amount added on each replenishment, in whole euros.
    fn to_replenishment_amount(&self) -> u32;
}

impl ToMoneyReplenishment for Category {
    fn to_replenishment_amount(&self) -> (r: u32)
        ensures
            r == replenishment_amount(*self),
    {
        match self {
            Category::FoodAndDrinks => 155,
            Category::OperationalSpends => 250,
            Category::UkrReponsibilities => 310,
            Category::Rent => 1140,
        }
    }
}

/// The title that opens a category's new period is the category's own
/// name, followed by ` - бот відкриває період`.
pub proof fn lemma_title_names_its_category(c: Category)
    ensures
        replenishment_title(c).len() == category_name(c).len() + " - бот відкриває період"@.len(),
        replenishment_title(c).take(category_name(c).len() as int) == category_name(c),
        replenishment_title(c).skip(category_name(c).len() as int) == " - бот відкриває період"@,
{
    assert(replenishment_title(c).take(category_name(c).len() as int) =~= category_name(c));
    assert(replenishment_title(c).skip(category_name(c).len() as int)
        =~= " - бот відкриває період"@);
}

/// Reading a category's name back gives the same category.
pub proof fn lemma_name_round_trip(c: Category)
    ensures
        parse_category(category_name(c)) == Some(c),
{
    reveal_strlit("Поживні речовини");
    reveal_strlit("Операційні витрати");
    reveal_strlit("Аренда");
    reveal_strlit("Українські зобовʼязання");
    assert("Поживні речовини"@.len() == 16);
    assert("Операційні витрати"@.len() == 18);
    assert("Аренда"@.len() == 6);
    assert("Українські зобовʼязання"@.len() == 23);
}

/// A text that reads as a category is exactly that category's name.
pub proof fn lemma_parse_gives_name(s: Seq<char>, c: Category)
    requires
        parse_category(s) == Some(c),
    ensures
        category_name(c) == s,
{
}

/// Different categories carry different tags in the spending database.
pub proof fn lemma_storage_ids_differ(a: Category, b: Category)
    requires
        a != b,
    ensures
        storage_id(a) != storage_id(b),
{
    reveal_strlit("de702077-821a-4b59-9ab0-949ca954c4a6");
    reveal_strlit("3e392471-bd4a-4cde-befb-e52e8f31b26d");
    reveal_strlit("278a679f-cde4-44aa-be5a-2876b67d080b");
    reveal_strlit("M?[|");
    assert(storage_id(a)[0] != storage_id(b)[0]);
}

/// The categories in the order in which balances are reported and
/// replenishments are planned.
pub open spec fn overview_order() -> Seq<Category> {
    seq![
        Category::FoodAndDrinks,
        Category::Rent,
        Category::UkrReponsibilities,
        Category::OperationalSpends,
    ]
}

/// Every category, in the order of `overview_order`.
pub fn overview_categories() -> (r: Vec<Category>)
    ensures
        r@ == overview_order(),
{
    let r = vec![
        Category::FoodAndDrinks,
        Category::Rent,
        Category::UkrReponsibilities,
        Category::OperationalSpends,
    ];
    assert(r@ =~= overview_order());
    r
}

/// The replenishment jobs for `cats`: for each category in turn, one job
/// per schedule of that category, in the order of its schedules.
pub open spec fn job_plan(cats: Seq<Category>) -> Seq<(Category, Seq<char>)>
    decreases cats.len(),
{
    if cats.len() == 0 {
        Seq::empty()
    } else {
        job_plan(cats.drop_last()) + replenishment_schedules(cats.last()).map_values(
            |s: Seq<char>| (cats.last(), s),
        )
    }
}

/// The jobs that replenish every category on its schedules.
pub fn replenishment_jobs() -> (r: Vec<(Category, String)>)
    ensures
        r@.map_values(|j: (Category, String)| (j.0, j.1@)) == job_plan(overview_order()),
{
    let cats = overview_categories();
    let mut jobs: Vec<(Category, String)> = Vec::new();
    for i in 0..cats.len()
        invariant
            cats@ == overview_order(),
            jobs@.map_values(|j: (Category, String)| (j.0, j.1@)) == job_plan(cats@.take(i as int)),
    {
        let c = cats[i];
        let schedules = c.replenish_money_schedules();
        let ghost before = jobs@.map_values(|j: (Category, String)| (j.0, j.1@));
        assert(cats@.take(i + 1).drop_last() =~= cats@.take(i as int));
        for k in 0..schedules.len()
            invariant
                views(schedules@) == replenishment_schedules(c),
                jobs@.map_values(|j: (Category, String)| (j.0, j.1@)) == before
                    + replenishment_schedules(c).take(k as int).map_values(
                    |s: Seq<char>| (c, s),
                ),
        {
            let ghost mid = jobs@.map_values(|j: (Category, String)| (j.0, j.1@));
            let s = schedules[k].clone();
            jobs.push((c, s));
            assert(jobs@.map_values(|j: (Category, String)| (j.0, j.1@)) =~= mid.push((c, s@)));
            assert(replenishment_schedules(c).take(k + 1) =~= replenishment_schedules(c).take(
                k as int,
            ).push(s@));
            assert(before + replenishment_schedules(c).take(k + 1).map_values(
                |s: Seq<char>| (c, s),
            ) =~= mid.push((c, s@)));
        }
        assert(replenishment_schedules(c).take(schedules.len() as int) =~= replenishment_schedules(
            c,
        ));
    }
    assert(cats@.take(cats.len() as int) =~= cats@);
    jobs
}

} // verus!
