use phosk_pages::categories::{Op, Target};

const DEFAULT_COLOUR: &str = "indigo";

#[test]
fn panel_targets_never_collide_with_a_category_name() {
    for name in ["+", "⇢"] {
        let t = Op::Delete(name.to_owned()).target();
        assert_eq!(t, Target::Row(name.to_owned()));
        assert_ne!(t, Target::Create);
        assert_ne!(t, Target::Merge);
    }
    let create = Op::Create {
        name: "+".to_owned(),
        colour: DEFAULT_COLOUR.to_owned(),
    };
    assert_eq!(create.target(), Target::Create);
}

#[test]
fn a_row_op_closes_only_its_own_rename_draft() {
    let colour = Op::Colour {
        name: "Rent".to_owned(),
        colour: DEFAULT_COLOUR.to_owned(),
    };
    assert!(colour.target().closes_draft("Rent"));
    assert!(!colour.target().closes_draft("Groceries"));
    assert!(!Target::Create.closes_draft("Rent"));
    assert!(!Target::Merge.closes_draft("Rent"));
}

use phosk_pages::categories::{entries_word, is_blank, line_items_word, used_count, CategoriesUi};

#[test]
fn category_words_and_counts() {
    assert!(is_blank("   "));
    assert!(is_blank(""));
    assert!(!is_blank(" a "));
    assert_eq!(entries_word(1), "entry");
    assert_eq!(entries_word(2), "entries");
    assert_eq!(line_items_word(1), "line item");
    assert_eq!(line_items_word(3), "line items");
    assert_eq!(used_count(&vec![0, 3, 0, 1]), 2);
}

#[test]
fn a_row_op_in_flight_blocks_create_and_review() {
    let mut ui: CategoriesUi<u32> = CategoriesUi::new();
    assert!(!ui.can_create());
    ui.new_name = "Fun".to_string();
    assert!(ui.can_create());
    ui.start_rename("Rent".to_string());
    let t = ui.begin_op(&Op::Delete("Rent".to_string()));
    assert_eq!(t, Target::Row("Rent".to_string()));
    assert!(!ui.can_create());
    ui.finish_op(t, Err("Category in use".to_string()));
    assert_eq!(ui.err_for(&Target::Row("Rent".to_string())).as_deref(), Some("Category in use"));
    assert_eq!(ui.err_for(&Target::Create), None);
    assert!(ui.can_create());
}

use phosk_pages::categories::MergePreview;

#[test]
fn a_merge_review_previews_or_shows_its_error() {
    let mut ui: CategoriesUi<u32> = CategoriesUi::new();
    assert!(!ui.can_review());
    ui.merge_from = "Snacks".to_string();
    ui.merge_into = "Groceries".to_string();
    assert!(ui.can_review());
    ui.begin_review();
    assert_eq!(ui.busy, Some(Target::Merge));
    assert!(!ui.can_review());
    ui.finish_review(Err("Same category".to_string()));
    assert_eq!(ui.err_for(&Target::Merge).as_deref(), Some("Same category"));
    ui.begin_review();
    assert_eq!(ui.err_for(&Target::Merge), None);
    let p = MergePreview {
        from: "Snacks".to_string(),
        into: "Groceries".to_string(),
        line_items: 12,
        records: 4,
    };
    ui.finish_review(Ok(p.clone()));
    assert_eq!(ui.preview, Some(p));
    assert!(ui.busy.is_none());
}

#[test]
fn the_rename_draft_follows_typing_and_cancel() {
    let mut ui: CategoriesUi<u32> = CategoriesUi::new();
    ui.edit_rename("ignored".to_string());
    assert!(ui.renaming.is_none());
    ui.start_rename("Rent".to_string());
    assert_eq!(ui.renaming, Some(("Rent".to_string(), "Rent".to_string())));
    ui.edit_rename("Housing".to_string());
    assert_eq!(ui.renaming, Some(("Rent".to_string(), "Housing".to_string())));
    ui.cancel_rename();
    assert!(ui.renaming.is_none());
}

#[test]
fn an_answered_write_replaces_the_shown_view_and_a_refusal_keeps_it() {
    let mut ui: CategoriesUi<u32> = CategoriesUi::new();
    assert_eq!(ui.live, None);
    ui.start_rename("Rent".to_string());
    let t = ui.begin_op(&Op::Rename { from: "Rent".to_string(), to: "Housing".to_string() });
    ui.finish_op(t, Ok(7));
    assert_eq!(ui.live, Some(7));
    assert!(ui.renaming.is_none());
    assert!(ui.busy.is_none());
    let t = ui.begin_op(&Op::Delete("Food".to_string()));
    ui.finish_op(t, Err("Category in use".to_string()));
    assert_eq!(ui.live, Some(7));
    assert_eq!(ui.err_for(&Target::Row("Food".to_string())).as_deref(), Some("Category in use"));
    ui.new_name = "Fun".to_string();
    let t = ui.begin_op(&Op::Create { name: "Fun".to_string(), colour: "#22c55e".to_string() });
    ui.finish_op(t, Ok(8));
    assert_eq!(ui.live, Some(8));
    assert_eq!(ui.new_name, "");
}
