use nalarch::i18n::{choose_lang, lang, t, table, tf, Lang};

#[test]
fn no_key_is_defined_twice() {
    let mut seen: Vec<(&str, &str)> = Vec::new();
    let mut clashes = Vec::new();
    for (k, v) in table() {
        if let Some((_, previous)) = seen.iter().find(|(key, _)| key == k) {
            if previous != v {
                clashes.push(format!("{k}  →  {previous}  /  {v}"));
            }
        }
        seen.push((k, v));
    }
    assert!(clashes.is_empty(), "duplicate key(s):\n{}", clashes.join("\n"));
}

#[test]
fn a_context_prefix_never_reaches_the_screen() {
    assert_eq!(t(lang(None), "tab|Installed"), "Installed");
}

#[test]
fn placeholders_are_positional() {
    assert_eq!(tf(lang(None), "{0} of {1}", &["3", "7"]), "3 of 7");
}

#[test]
fn an_untranslated_string_falls_back_to_english() {
    assert_eq!(t(lang(None), "no entry for this one"), "no entry for this one");
}

// ---- further cases ----

#[test]
fn french_is_looked_up_and_falls_back() {
    assert_ne!(t(Lang::Fr, "Updates"), "Updates");
    assert_eq!(t(Lang::Fr, "no entry for this one"), "no entry for this one");
    assert_eq!(t(Lang::Fr, "ctx|no entry"), "no entry");
}

#[test]
fn a_placeholder_can_come_twice_or_out_of_order() {
    assert_eq!(tf(Lang::En, "{1} before {0}, {1} again", &["a", "b"]), "b before a, b again");
}

#[test]
fn the_language_is_chosen_from_the_flag_then_the_environment() {
    let args = vec!["nalarch".to_string(), "--lang".to_string(), "fr".to_string()];
    assert_eq!(choose_lang(&args, "en_US.UTF-8"), Lang::Fr);
    assert_eq!(choose_lang(&["nalarch".to_string()], "fr_FR.UTF-8"), Lang::Fr);
    assert_eq!(choose_lang(&["nalarch".to_string()], "de_DE.UTF-8"), Lang::En);
    assert_eq!(lang(Some(Lang::Fr)), Lang::Fr);
}
