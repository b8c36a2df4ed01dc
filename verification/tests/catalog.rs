use soundpad_remote_client::catalog::{
    Categories, Category, CategorySound, Hotbar, Sound, SoundListAndCategories, SoundOrCategories,
    SoundOrCategory,
};

fn category(name: &str, content: Option<Vec<SoundOrCategory>>) -> Category {
    Category {
        sounds_and_categories: content,
        kind: None,
        hidden: Some(false),
        name: Some(name.to_string()),
        icon: None,
        index: Some(1),
        key_modifiers: None,
        key: None,
    }
}

fn sound(id: u64) -> SoundOrCategory {
    SoundOrCategory::Sound(CategorySound { id })
}

fn catalog() -> SoundListAndCategories {
    let sub = category("Sub", Some(vec![sound(5), sound(6)]));
    let top = category("Top", Some(vec![sound(1), SoundOrCategory::Category(sub), sound(2), sound(3)]));
    SoundListAndCategories {
        sounds_or_categories: vec![
            SoundOrCategories::Sound(Sound { url: "C:\\sounds\\one.mp3".to_string() }),
            SoundOrCategories::Categories(Categories { categories: vec![category("Empty", None), top] }),
            SoundOrCategories::Hotbar(Hotbar {}),
        ],
    }
}

fn count_sounds(category: &Category) -> usize {
    category
        .sounds_and_categories
        .as_ref()
        .unwrap()
        .iter()
        .filter(|it| matches!(it, SoundOrCategory::Sound(_)))
        .count()
}

#[test]
fn a_category_holds_sounds_and_categories() {
    let catalog = catalog();
    assert_eq!(catalog.sounds_or_categories.len(), 3);
    let categories = match &catalog.sounds_or_categories[1] {
        SoundOrCategories::Categories(categories) => &categories.categories,
        _ => panic!("the second entry holds the categories"),
    };
    assert!(categories[0].sounds_and_categories.is_none());
    let top = &categories[1];
    assert_eq!(top.name.as_deref(), Some("Top"));
    assert_eq!(count_sounds(top), 3);
    let sub = top
        .sounds_and_categories
        .as_ref()
        .unwrap()
        .iter()
        .find_map(|it| match it {
            SoundOrCategory::Category(category) => Some(category),
            _ => None,
        })
        .unwrap();
    assert_eq!(sub.name.as_deref(), Some("Sub"));
    assert_eq!(count_sounds(sub), 2);
}

#[test]
fn leaves_can_be_cloned() {
    let one = Sound { url: "one.wav".to_string() };
    assert_eq!(one.clone().url, "one.wav");
    let reference = CategorySound { id: 42 };
    assert_eq!(reference.clone().id, 42);
    let _ = Hotbar {}.clone();
}

#[test]
fn a_clone_says_the_same_all_the_way_down() {
    let source = catalog();
    let copy = source.clone();
    assert_eq!(format!("{:?}", copy), format!("{:?}", source));
    assert_eq!(copy.sounds_or_categories.len(), 3);
    let categories = match &copy.sounds_or_categories[1] {
        SoundOrCategories::Categories(categories) => categories.clone(),
        _ => panic!("the second entry holds the categories"),
    };
    assert_eq!(categories.categories.len(), 2);
    let top = categories.categories[1].clone();
    assert_eq!(top.name.as_deref(), Some("Top"));
    assert_eq!(top.hidden, Some(false));
    assert_eq!(top.index, Some(1));
    assert_eq!(top.icon, None);
    assert_eq!(count_sounds(&top), 3);
    let entries = top.sounds_and_categories.unwrap();
    assert!(matches!(entries[0].clone(), SoundOrCategory::Sound(CategorySound { id: 1 })));
    match entries[1].clone() {
        SoundOrCategory::Category(sub) => {
            assert_eq!(sub.name.as_deref(), Some("Sub"));
            assert_eq!(count_sounds(&sub), 2);
        }
        _ => panic!("the second entry of the category is a category"),
    }
}

#[test]
fn a_clone_shares_nothing_with_its_source() {
    let source = category("Top", Some(vec![sound(1), sound(2)]));
    let mut copy = source.clone();
    copy.name = Some("Changed".to_string());
    copy.sounds_and_categories.as_mut().unwrap().push(sound(3));
    assert_eq!(source.name.as_deref(), Some("Top"));
    assert_eq!(count_sounds(&source), 2);
    assert_eq!(count_sounds(&copy), 3);
}

#[test]
fn a_category_without_content_is_cloned_without_content() {
    let empty = category("Empty", None);
    assert!(empty.clone().sounds_and_categories.is_none());
    let hollow = category("Hollow", Some(Vec::new()));
    assert_eq!(hollow.clone().sounds_and_categories.map(|it| it.len()), Some(0));
}
