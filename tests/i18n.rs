use sea_lantern::i18n::{I18nService, LocaleCallbackToken, LocaleListener};
use std::cell::RefCell;
use std::rc::Rc;

struct Silent;

impl LocaleListener for Silent {
    fn locale_changed(&self, _previous: &str, _current: &str) {}
}

struct Recorder {
    tag: u32,
    calls: Rc<RefCell<Vec<(u32, String, String)>>>,
}

impl LocaleListener for Recorder {
    fn locale_changed(&self, previous: &str, current: &str) {
        self.calls.borrow_mut().push((self.tag, previous.to_string(), current.to_string()));
    }
}

#[test]
fn translates_with_fallback_to_the_base_locale_and_the_key() {
    let mut s: I18nService<Silent> = I18nService::new();
    assert_eq!(s.get_locale(), "zh-CN");
    assert_eq!(s.t("app.subtitle"), "Minecraft 服务器管理器");
    let _ = s.set_locale("en-US");
    assert_eq!(s.get_locale(), "en-US");
    assert_eq!(s.t("app.subtitle"), "Minecraft Server Manager");
    assert_eq!(s.t("missing.key"), "missing.key");
    let _ = s.set_locale("fr-FR");
    assert_eq!(s.t("app.subtitle"), "Minecraft 服务器管理器");
    assert!(s.get_all_translations().is_empty());
    let _ = s.set_locale("zh-TW");
    let all = s.get_all_translations();
    assert_eq!(all.len(), 2);
    assert!(all.contains(&("app.subtitle".to_string(), "Minecraft 伺服器管理器".to_string())));
}

#[test]
fn fills_placeholders_in_order() {
    let s: I18nService<Silent> = I18nService::new();
    let opts = vec![("name".to_string(), "Steve".to_string()), ("n".to_string(), "3".to_string())];
    assert_eq!(s.t_with_options("Hello {name}, {n} {n} {x}", &opts), "Hello Steve, 3 3 {x}");
}

#[test]
fn callbacks_are_notified_until_removed() {
    let calls = Rc::new(RefCell::new(Vec::new()));
    let mut s: I18nService<Recorder> = I18nService::new();
    let a: LocaleCallbackToken = s.on_locale_change(Recorder { tag: 10, calls: calls.clone() });
    let b = s.on_locale_change(Recorder { tag: 20, calls: calls.clone() });
    assert_eq!((a.0, b.0), (1, 2));
    let _ = s.set_locale("en-US");
    assert_eq!(
        *calls.borrow(),
        vec![(10, "zh-CN".to_string(), "en-US".to_string()), (20, "zh-CN".to_string(), "en-US".to_string())]
    );
    calls.borrow_mut().clear();
    s.remove_locale_callback(&a);
    s.remove_locale_callback(&a);
    let _ = s.set_locale("zh-TW");
    assert_eq!(*calls.borrow(), vec![(20, "en-US".to_string(), "zh-TW".to_string())]);
    let c = s.on_locale_change(Recorder { tag: 30, calls: calls.clone() });
    assert_eq!(c.0, 3);
}
