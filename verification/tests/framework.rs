use agentforge_ui::command_palette::{CommandItem, CommandPalette};
use agentforge_ui::export::ExportManager;
use agentforge_ui::onboarding::{OnboardingFlow, OnboardingStep};
use agentforge_ui::responsive::Breakpoint;
use agentforge_ui::text::decimal_chars;
use agentforge_ui::theme::{ThemeMode, ThemeTransitionManager};

fn step(t: &str) -> OnboardingStep {
    OnboardingStep { title: t.to_string(), description: String::new() }
}

#[test]
fn the_palette_lists_commands_matching_the_query() {
    let mut p = CommandPalette::new(vec![
        CommandItem { label: "Open Settings".to_string(), description: String::new() },
        CommandItem { label: "New Agent".to_string(), description: String::new() },
    ]);
    assert_eq!(p.listed_items(), vec![0, 1]);
    p.set_query("SETT".to_string());
    assert_eq!(p.listed_items(), vec![0]);
    assert!(!p.is_listed(1));
    p.set_query("zzz".to_string());
    assert!(p.listed_items().is_empty());
}

#[test]
fn onboarding_moves_within_its_steps() {
    let mut f = OnboardingFlow::new(vec![step("a"), step("b"), step("c")]);
    assert_eq!(f.current_index(), 0);
    f.prev_step();
    assert_eq!(f.current_index(), 0);
    f.next_step();
    f.next_step();
    assert!(f.is_finished());
    f.next_step();
    assert_eq!(f.current_index(), 2);
    assert_eq!(f.current_step().unwrap().title, "c");
    f.prev_step();
    assert_eq!(f.current_index(), 1);
    assert!(!f.is_finished());
}

#[test]
fn next_then_previous_returns_to_the_same_step() {
    let mut f = OnboardingFlow::new(vec![step("a"), step("b")]);
    f.next_step();
    f.prev_step();
    assert_eq!(f.current_index(), 0);
}

#[test]
fn breakpoints_follow_the_width() {
    assert_eq!(Breakpoint::for_width(500), Breakpoint::Mobile);
    assert_eq!(Breakpoint::for_width(768), Breakpoint::Tablet);
    assert_eq!(Breakpoint::for_width(1023), Breakpoint::Tablet);
    assert_eq!(Breakpoint::for_width(1024), Breakpoint::Desktop);
}

#[test]
fn theme_choices() {
    assert_eq!(ThemeTransitionManager::toggled_mode(true), ThemeMode::Light);
    assert_eq!(ThemeTransitionManager::toggled_mode(false), ThemeMode::Dark);
    assert_eq!(ThemeTransitionManager::restored_theme_name(None), "AgentForge Dark");
    assert_eq!(ThemeTransitionManager::restored_theme_name(Some("Solar".to_string())), "Solar");
    assert_eq!(ThemeTransitionManager::restored_mode(&Some("light".to_string())), Some(ThemeMode::Light));
    assert_eq!(ThemeTransitionManager::restored_mode(&Some("sepia".to_string())), Some(ThemeMode::Dark));
    assert_eq!(ThemeTransitionManager::restored_mode(&None), None);
    assert_eq!(ThemeTransitionManager::mode_setting(true), "dark");
}

#[test]
fn csv_text_joins_fields_with_commas() {
    let headers = vec!["name".to_string(), "tokens".to_string()];
    let rows = vec![vec!["a".to_string(), "1".to_string()], vec!["b".to_string()]];
    assert_eq!(ExportManager::csv_text(&headers, &rows), "name,tokens\na,1\nb\n");
}

#[test]
fn decimal_texts() {
    assert_eq!(decimal_chars(0).into_iter().collect::<String>(), "0");
    assert_eq!(decimal_chars(907).into_iter().collect::<String>(), "907");
    assert_eq!(decimal_chars(u64::MAX).into_iter().collect::<String>(), u64::MAX.to_string());
}
