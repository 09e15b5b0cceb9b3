use phosk_pages::subscriptions::{
    blank_form, cad_text, cad_unit, cadence_groups, candidate_button_labels, chf_places,
    form_from_sub, positions_of, sub_status, CandidateAction, ChargeDraft, SubAction, SubText,
    SubWrite, SubsUi,
};

fn s(v: &[&str]) -> Vec<String> {
    v.iter().map(|x| x.to_string()).collect()
}

#[test]
fn status_labels_and_tones() {
    assert_eq!(sub_status("due", ""), ("NOT SEEN".to_string(), "coral"));
    assert_eq!(sub_status("soon", ""), ("DUE SOON".to_string(), "warn"));
    assert_eq!(sub_status("watch", ""), ("REVIEW".to_string(), "warn"));
    assert_eq!(sub_status("active", ""), ("ACTIVE".to_string(), "blue"));
    assert_eq!(sub_status("due", "OVERDUE 3D"), ("OVERDUE 3D".to_string(), "coral"));
}

#[test]
fn cadence_texts() {
    assert_eq!(cad_unit("yearly"), "/ YR");
    assert_eq!(cad_unit("monthly"), "/ MO");
    assert_eq!(cad_text(true, 3), "YEARLY");
    assert_eq!(cad_text(false, 15), "MONTHLY · 15");
    assert_eq!(cad_text(false, 0), "MONTHLY");
    assert_eq!(chf_places(1200, 2), 0);
    assert_eq!(chf_places(1250, 2), 2);
    assert_eq!(chf_places(-300, 2), 0);
    assert_eq!(chf_places(-305, 2), 2);
}

#[test]
fn the_edit_form_starts_from_the_listed_record() {
    let t = SubText {
        name: "Spotify".to_string(),
        cadence: "yearly".to_string(),
        day: 0,
        month: String::new(),
        category: "Fun".to_string(),
        glyph: "S".to_string(),
        note: "family".to_string(),
    };
    let f = form_from_sub(&t, "119.90".to_string());
    assert_eq!(f.name, "Spotify");
    assert_eq!(f.amount, "119.90");
    assert_eq!(f.day, "");
    assert_eq!(f.month, "JAN");
    assert_eq!(f.note, "family");
    let t2 = SubText { day: 28, month: "MAR".to_string(), ..t };
    let f2 = form_from_sub(&t2, "9".to_string());
    assert_eq!(f2.day, "28");
    assert_eq!(f2.month, "MAR");
    let b = blank_form();
    assert_eq!(b.cadence, "monthly");
    assert_eq!(b.month, "JAN");
    assert_eq!(b.name, "");
}

#[test]
fn candidate_buttons_show_the_decision_in_flight() {
    assert_eq!(candidate_button_labels(None), ("CONFIRM", "DISMISS"));
    assert_eq!(candidate_button_labels(Some(CandidateAction::Confirm)), ("CONFIRMING…", "DISMISS"));
    assert_eq!(candidate_button_labels(Some(CandidateAction::Dismiss)), ("CONFIRM", "DISMISSING…"));
}

#[test]
fn one_write_at_a_time_and_only_its_own_ui_closes() {
    let mut ui = SubsUi::new();
    ui.form = Some((Some("s1".to_string()), blank_form()));
    ui.charge = Some(ChargeDraft { id: "s2".to_string(), amount: "5".to_string(), date: String::new() });
    ui.sel = Some("s2".to_string());
    assert!(!ui.begin_write(true));
    assert!(ui.begin_write(false));
    assert!(!ui.begin_write(false));
    let w = SubWrite::Action("s2".to_string(), SubAction::Pause);
    ui.finish_write(&w, Ok(None));
    assert!(!ui.write_pending);
    assert!(ui.form.is_some());
    assert!(ui.charge.is_some());
    assert_eq!(ui.sel.as_deref(), Some("s2"));
    assert!(ui.begin_write(false));
    ui.finish_write(&SubWrite::Delete("s2".to_string()), Ok(None));
    assert!(ui.charge.is_none());
    assert!(ui.form.is_some());
    assert!(ui.sel.is_none());
}

#[test]
fn a_failed_write_shows_where_it_came_from() {
    let mut ui = SubsUi::new();
    ui.form = Some((None, blank_form()));
    assert!(ui.begin_write(false));
    let w = SubWrite::Create(blank_form());
    assert!(w.is_form_write());
    ui.finish_write(&w, Err("Name is required".to_string()));
    assert_eq!(ui.form_error().as_deref(), Some("Name is required"));
    assert_eq!(ui.insp_error(), None);
    assert!(ui.begin_write(false));
    assert_eq!(ui.form_error(), None);
    let w2 = SubWrite::Delete("s9".to_string());
    assert!(!w2.is_form_write());
    ui.finish_write(&w2, Err("Not found".to_string()));
    assert_eq!(ui.insp_error().as_deref(), Some("Not found"));
    assert!(ui.begin_write(false));
    ui.finish_write(&w, Ok(Some("s10".to_string())));
    assert!(ui.form.is_none());
    assert_eq!(ui.sel.as_deref(), Some("s10"));
}

#[test]
fn candidates_decide_one_at_a_time() {
    let mut ui = SubsUi::new();
    assert!(ui.begin_candidate("c1".to_string(), CandidateAction::Confirm, false));
    assert!(!ui.begin_candidate("c2".to_string(), CandidateAction::Dismiss, false));
    ui.finish_candidate(Err("Candidate expired".to_string()));
    assert!(ui.cand_pending.is_none());
    assert_eq!(ui.cand_error, Some(("c1".to_string(), "Candidate expired".to_string())));
    assert!(!ui.begin_candidate("c2".to_string(), CandidateAction::Dismiss, true));
    assert!(ui.begin_candidate("c2".to_string(), CandidateAction::Dismiss, false));
    assert!(ui.cand_error.is_none());
}

#[test]
fn clicking_a_selected_row_deselects_it() {
    let mut ui = SubsUi::new();
    ui.click("s1".to_string());
    assert_eq!(ui.sel.as_deref(), Some("s1"));
    ui.click("s2".to_string());
    assert_eq!(ui.sel.as_deref(), Some("s2"));
    ui.click("s2".to_string());
    assert_eq!(ui.sel, None);
}

#[test]
fn cadence_groups_monthly_then_yearly() {
    let c = s(&["yearly", "monthly", "monthly", "weekly"]);
    assert_eq!(positions_of(&c, "monthly"), vec![1, 2]);
    let g = cadence_groups(&c, true);
    assert_eq!(g.len(), 2);
    assert_eq!(g[0], (Some("MONTHLY · 2".to_string()), vec![1, 2]));
    assert_eq!(g[1], (Some("YEARLY · 1".to_string()), vec![0]));
    let all = cadence_groups(&c, false);
    assert_eq!(all, vec![(None, vec![0, 1, 2, 3])]);
    let only_m = cadence_groups(&s(&["monthly"]), true);
    assert_eq!(only_m, vec![(Some("MONTHLY · 1".to_string()), vec![0])]);
}

use phosk_pages::subscriptions::{cycle_tail, flagged_note, mo_sub, next30_sub};

#[test]
fn kpi_lines_of_the_subscriptions_page() {
    assert_eq!(mo_sub(Some((9, 2))), "9 active · 2 auto-detected by GEMMA4");
    assert_eq!(mo_sub(Some((9, 0))), "9 active");
    assert_eq!(mo_sub(None), "—");
    assert_eq!(next30_sub(Some(("Netflix", 4))), "Next · Netflix in 4d");
    assert_eq!(next30_sub(None), "Nothing scheduled");
    assert_eq!(flagged_note(Some("")), "Flagged by GEMMA4 for review");
    assert_eq!(flagged_note(Some("2 price rises")), "2 price rises");
    assert_eq!(flagged_note(None), "Awaiting backend");
    assert_eq!(cycle_tail(""), "");
    assert_eq!(cycle_tail("JUN 2026"), " · JUN 2026");
}

#[test]
fn the_selected_candidate_shows_its_own_state() {
    let mut ui = SubsUi::new();
    ui.click("c1".to_string());
    assert!(ui.begin_candidate("c1".to_string(), CandidateAction::Dismiss, false));
    assert_eq!(ui.sel_cand_pending(), Some(CandidateAction::Dismiss));
    ui.finish_candidate(Err("Gone".to_string()));
    assert_eq!(ui.sel_cand_pending(), None);
    assert_eq!(ui.sel_cand_error().as_deref(), Some("Gone"));
    ui.click("c2".to_string());
    assert_eq!(ui.sel_cand_error(), None);
}

use phosk_pages::subscriptions::{card_figure, next_tail, source_mark};

#[test]
fn card_figures_tails_and_marks() {
    assert_eq!(card_figure(1890, 22680, false, "monthly"), (1890, "/ MO", 2));
    assert_eq!(card_figure(1800, 21600, false, "monthly"), (1800, "/ MO", 2));
    assert_eq!(card_figure(1800, 21600, true, "monthly"), (21600, "/ YR", 0));
    assert_eq!(card_figure(11900, 11900, false, "yearly"), (11900, "/ YR", 0));
    assert_eq!(card_figure(11990, 11990, true, "yearly"), (11990, "/ YR", 2));
    assert_eq!(next_tail(true, 3), (true, " · IN 3D".to_string()));
    assert_eq!(next_tail(true, 9), (false, " · IN 9D".to_string()));
    assert_eq!(next_tail(false, 1), (false, String::new()));
    assert_eq!(source_mark("llm"), ("blue", "sub-src auto", "AUTO"));
    assert_eq!(source_mark("user"), ("ok", "sub-src", "USER"));
}

use phosk_pages::subscriptions::{insp_axis, insp_cadence, insp_guidance};

#[test]
fn inspector_texts_and_open_panels() {
    assert_eq!(insp_guidance("Cancel it", "warn", "note", "due"), ("Cancel it".to_string(), "warn".to_string()));
    assert_eq!(insp_guidance("", "", "note", "watch"), ("note".to_string(), "coral".to_string()));
    assert_eq!(insp_guidance("", "", "note", "active"), ("note".to_string(), String::new()));
    assert_eq!(insp_cadence(true, "MAR", 0), "YEARLY · MAR");
    assert_eq!(insp_cadence(true, "", 0), "YEARLY");
    assert_eq!(insp_cadence(false, "", 12), "MONTHLY · 12");
    assert_eq!(insp_axis(true, false), ("3 YEARS", "FLAT"));
    assert_eq!(insp_axis(false, true), ("6 CHARGES", "PRICE ROSE"));
    let mut ui = SubsUi::new();
    assert!(!ui.deleting("s1"));
    ui.confirm_del = Some("s1".to_string());
    assert!(ui.deleting("s1"));
    assert!(!ui.deleting("s2"));
    ui.charge = Some(ChargeDraft { id: "s1".to_string(), amount: "9.90".to_string(), date: String::new() });
    assert_eq!(ui.charge_on("s1").map(|c| c.amount), Some("9.90".to_string()));
    assert!(ui.charge_on("s2").is_none());
}

use phosk_pages::subscriptions::sweep_order;

#[test]
fn the_sweep_plots_by_day_then_largest_amount() {
    assert_eq!(sweep_order(&vec![15, 3, 15, 3], &vec![990, 1200, 2500, 1200]), vec![1, 3, 2, 0]);
}

use phosk_pages::subscriptions::{insp_body, InspBody};

#[test]
fn the_inspector_shows_the_detail_only_for_the_selected_subscription() {
    assert_eq!(insp_body(None, Some("s1"), true, true), InspBody::Empty);
    assert_eq!(insp_body(Some("s1"), None, false, true), InspBody::Awaiting);
    assert_eq!(insp_body(Some("s1"), Some("s2"), false, true), InspBody::Awaiting);
    assert_eq!(insp_body(Some("s1"), Some("s1"), false, true), InspBody::Detail(false));
    assert_eq!(insp_body(Some("s1"), Some("s1"), true, true), InspBody::Detail(true));
    assert_eq!(insp_body(Some("s1"), Some("s1"), true, false), InspBody::Detail(false));
}
