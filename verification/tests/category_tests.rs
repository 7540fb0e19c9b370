use budget_bot::category::{overview_categories, replenishment_jobs, Category, ToMoneyReplenishment, ToSchedule};

const ALL: [Category; 4] = [
    Category::FoodAndDrinks,
    Category::OperationalSpends,
    Category::Rent,
    Category::UkrReponsibilities,
];

#[test]
fn names_of_categories() {
    assert_eq!(Category::FoodAndDrinks.to_string(), "Поживні речовини");
    assert_eq!(Category::OperationalSpends.to_string(), "Операційні витрати");
    assert_eq!(Category::Rent.to_string(), "Аренда");
    assert_eq!(Category::UkrReponsibilities.to_string(), "Українські зобовʼязання");
}

#[test]
fn names_read_back() {
    for c in ALL {
        assert_eq!(Category::from_str(&c.to_string()), Ok(c));
    }
}

#[test]
fn unknown_names_are_refused() {
    assert_eq!(Category::from_str(""), Err(()));
    assert_eq!(Category::from_str("Аренда "), Err(()));
    assert_eq!(Category::from_str("аренда"), Err(()));
    assert_eq!(Category::from_str("/help"), Err(()));
    assert_eq!(Category::from_str("Rent"), Err(()));
}

#[test]
fn storage_ids() {
    assert_eq!(Category::FoodAndDrinks.to_storage_id(), "de702077-821a-4b59-9ab0-949ca954c4a6");
    assert_eq!(Category::OperationalSpends.to_storage_id(), "3e392471-bd4a-4cde-befb-e52e8f31b26d");
    assert_eq!(Category::Rent.to_storage_id(), "278a679f-cde4-44aa-be5a-2876b67d080b");
    assert_eq!(Category::UkrReponsibilities.to_storage_id(), "M?[|");
}

#[test]
fn storage_ids_differ() {
    for a in ALL {
        for b in ALL {
            if a != b {
                assert_ne!(a.to_storage_id(), b.to_storage_id());
            }
        }
    }
}

#[test]
fn schedules_of_categories() {
    let twice = vec!["0 0 0 15 * *".to_string(), "0 0 0 15 * *".to_string()];
    let once = vec!["0 0 0 1 * *".to_string()];
    assert_eq!(Category::FoodAndDrinks.replenish_money_schedules(), twice);
    assert_eq!(Category::OperationalSpends.replenish_money_schedules(), twice);
    assert_eq!(Category::Rent.replenish_money_schedules(), once);
    assert_eq!(Category::UkrReponsibilities.replenish_money_schedules(), once);
}

#[test]
fn replenishment_amounts() {
    assert_eq!(Category::FoodAndDrinks.to_replenishment_amount(), 155);
    assert_eq!(Category::OperationalSpends.to_replenishment_amount(), 250);
    assert_eq!(Category::UkrReponsibilities.to_replenishment_amount(), 310);
    assert_eq!(Category::Rent.to_replenishment_amount(), 1140);
}

#[test]
fn replenishment_titles() {
    assert_eq!(Category::Rent.replenishment_title(), "Аренда - бот відкриває період");
    assert_eq!(
        Category::FoodAndDrinks.replenishment_title(),
        "Поживні речовини - бот відкриває період"
    );
}

#[test]
fn overview_order() {
    assert_eq!(
        overview_categories(),
        vec![
            Category::FoodAndDrinks,
            Category::Rent,
            Category::UkrReponsibilities,
            Category::OperationalSpends,
        ]
    );
}

#[test]
fn jobs_cover_every_schedule() {
    let jobs = replenishment_jobs();
    let expected = vec![
        (Category::FoodAndDrinks, "0 0 0 15 * *".to_string()),
        (Category::FoodAndDrinks, "0 0 0 15 * *".to_string()),
        (Category::Rent, "0 0 0 1 * *".to_string()),
        (Category::UkrReponsibilities, "0 0 0 1 * *".to_string()),
        (Category::OperationalSpends, "0 0 0 15 * *".to_string()),
        (Category::OperationalSpends, "0 0 0 15 * *".to_string()),
    ];
    assert_eq!(jobs, expected);
}

#[test]
fn categories_parse_through_from_str_trait() {
    assert_eq!("Аренда".parse::<Category>(), Ok(Category::Rent));
    assert_eq!("Оренда".parse::<Category>(), Err(()));
}
