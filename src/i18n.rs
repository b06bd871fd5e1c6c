//! Interface strings in several locales, with a fallback to the base locale
//! and notification of locale changes.

use crate::text::same_text;
use vstd::prelude::*;

verus! {

/// A translation table: keys and their texts, the first entry of a key
/// deciding.
pub type Entries = Seq<(Seq<char>, Seq<char>)>;

/// The text of `key` in `entries`, if any.
pub open spec fn lookup(entries: Entries, key: Seq<char>) -> Option<Seq<char>>
    decreases entries.len(),
{
    if entries.len() == 0 {
        None
    } else if entries[0].0 == key {
        Some(entries[0].1)
    } else {
        lookup(entries.drop_first(), key)
    }
}

/// The table of `locale` among `tables`, if any.
pub open spec fn table_of(tables: Seq<(Seq<char>, Entries)>, locale: Seq<char>) -> Option<Entries>
    decreases tables.len(),
{
    if tables.len() == 0 {
        None
    } else if tables[0].0 == locale {
        Some(tables[0].1)
    } else {
        table_of(tables.drop_first(), locale)
    }
}

/// The text of `key` in `locale` among `tables`, if any.
pub open spec fn text_in(tables: Seq<(Seq<char>, Entries)>, locale: Seq<char>, key: Seq<char>) -> Option<Seq<char>> {
    match table_of(tables, locale) {
        Some(e) => lookup(e, key),
        None => None,
    }
}

/// The base locale, which other locales fall back to.
pub open spec fn base_locale() -> Seq<char> {
    "zh-CN"@
}

/// The translation of `key` in `locale`: its text there, else its text in the
/// base locale, else the key itself.
pub open spec fn translate(tables: Seq<(Seq<char>, Entries)>, locale: Seq<char>, key: Seq<char>) -> Seq<char> {
    match text_in(tables, locale, key) {
        Some(t) => t,
        None => if locale != base_locale() {
            match text_in(tables, base_locale(), key) {
                Some(t) => t,
                None => key,
            }
        } else {
            key
        },
    }
}

/// `s` with every occurrence of the non-empty `pat`, from left to right and
/// without overlap, replaced by `to`.
pub open spec fn replace_all(s: Seq<char>, pat: Seq<char>, to: Seq<char>) -> Seq<char>
    decreases s.len(),
{
    if pat.len() == 0 || s.len() < pat.len() {
        s
    } else if s.take(pat.len() as int) == pat {
        to + replace_all(s.skip(pat.len() as int), pat, to)
    } else {
        seq![s[0]] + replace_all(s.drop_first(), pat, to)
    }
}

/// `s` after each option `(k, v)`, in order, replaced the placeholders `{k}` by `v`.
pub open spec fn fill_options(s: Seq<char>, options: Seq<(Seq<char>, Seq<char>)>) -> Seq<char>
    decreases options.len(),
{
    if options.len() == 0 {
        s
    } else {
        replace_all(
            fill_options(s, options.drop_last()),
            "{"@ + options.last().0 + "}"@,
            options.last().1,
        )
    }
}

/// Relies on `str::replace`: every non-overlapping match of the pattern, from
/// left to right, replaced by the replacement.
#[verifier::external_body]
fn replace_text(s: &str, pat: &str, to: &str) -> (r: String)
    ensures
        pat@.len() > 0 ==> r@ == replace_all(s@, pat@, to@),
{
    s.replace(pat, to)
}

/// A callback told of locale changes.
pub trait LocaleListener {
    /// Called with the previous and the new locale.
    fn locale_changed(&self, previous: &str, current: &str);
}

/// The notifications of a locale change from `previous` to `current`: one
/// for each of `callbacks`, in order, with its id.
pub open spec fn notifications<C>(callbacks: Seq<(usize, C)>, previous: Seq<char>, current: Seq<char>) -> Seq<
    (usize, Seq<char>, Seq<char>),
> {
    callbacks.map_values(|e: (usize, C)| (e.0, previous, current))
}

/// The token that identifies a registered locale-change callback.
#[derive(Clone, Debug)]
pub struct LocaleCallbackToken(pub usize);

/// The translations of one locale.
struct LocaleTable {
    locale: String,
    entries: Vec<(String, String)>,
}

/// The view of a list of key/text pairs.
pub open spec fn pairs_view(v: Seq<(String, String)>) -> Entries {
    v.map_values(|p: (String, String)| (p.0@, p.1@))
}

/// Translations in several locales, the current locale, and the callbacks to
/// notify of locale changes. `C` is the type of a callback.
pub struct I18nService<C> {
    translations: Vec<LocaleTable>,
    locale: String,
    change_callbacks: Vec<(usize, C)>,
    next_callback_id: usize,
}

/// The built-in translations.
pub open spec fn builtin_tables() -> Seq<(Seq<char>, Entries)> {
    seq![
        ("zh-CN"@, seq![("app.title"@, "SeaLantern"@), ("app.subtitle"@, "Minecraft 服务器管理器"@)]),
        ("en-US"@, seq![("app.title"@, "SeaLantern"@), ("app.subtitle"@, "Minecraft Server Manager"@)]),
        ("zh-TW"@, seq![("app.title"@, "SeaLantern"@), ("app.subtitle"@, "Minecraft 伺服器管理器"@)]),
    ]
}

fn table(locale: &str, title: &str, subtitle: &str) -> (r: LocaleTable)
    ensures
        r.locale@ == locale@,
        pairs_view(r.entries@) == seq![("app.title"@, title@), ("app.subtitle"@, subtitle@)],
{
    let mut entries: Vec<(String, String)> = Vec::new();
    entries.push(("app.title".to_string(), title.to_string()));
    entries.push(("app.subtitle".to_string(), subtitle.to_string()));
    assert(pairs_view(entries@) =~= seq![("app.title"@, title@), ("app.subtitle"@, subtitle@)]);
    LocaleTable { locale: locale.to_string(), entries }
}

/// The text of `key` in `entries`.
pub(crate) fn lookup_entry(entries: &Vec<(String, String)>, key: &str) -> (r: Option<String>)
    ensures
        match r {
            Some(t) => lookup(pairs_view(entries@), key@) == Some(t@),
            None => lookup(pairs_view(entries@), key@) is None,
        },
{
    let ghost e = pairs_view(entries@);
    let mut i: usize = 0;
    assert(e.skip(0) =~= e);
    while i < entries.len()
        invariant
            i <= entries@.len(),
            e == pairs_view(entries@),
            lookup(e, key@) == lookup(e.skip(i as int), key@),
        decreases entries.len() - i,
    {
        assert(e.skip(i as int)[0] == (entries@[i as int].0@, entries@[i as int].1@));
        if same_text(&entries[i].0, key) {
            return Some(entries[i].1.clone());
        }
        assert(e.skip(i as int).drop_first() =~= e.skip(i + 1));
        i = i + 1;
    }
    assert(e.skip(i as int) =~= Seq::<(Seq<char>, Seq<char>)>::empty());
    None
}

/// A copy of a list of key/text pairs.
fn copy_pairs(v: &Vec<(String, String)>) -> (r: Vec<(String, String)>)
    ensures
        pairs_view(r@) == pairs_view(v@),
{
    let mut r: Vec<(String, String)> = Vec::new();
    let mut i: usize = 0;
    while i < v.len()
        invariant
            i <= v@.len(),
            r@.len() == i,
            pairs_view(r@) =~= pairs_view(v@).take(i as int),
        decreases v.len() - i,
    {
        let p = (v[i].0.clone(), v[i].1.clone());
        r.push(p);
        i = i + 1;
        assert(pairs_view(r@) =~= pairs_view(v@).take(i as int));
    }
    assert(pairs_view(v@).take(i as int) =~= pairs_view(v@));
    r
}

impl<C> I18nService<C> {
    /// The position of the table of `locale`.
    fn find_table(&self, locale: &str) -> (r: Option<usize>)
        ensures
            match r {
                Some(i) => i < self.translations@.len() && table_of(self.tables(), locale@) == Some(
                    pairs_view(self.translations@[i as int].entries@),
                ),
                None => table_of(self.tables(), locale@) is None,
            },
    {
        let ghost tb = self.tables();
        let mut i: usize = 0;
        assert(tb.skip(0) =~= tb);
        while i < self.translations.len()
            invariant
                i <= self.translations@.len(),
                tb == self.tables(),
                table_of(tb, locale@) == table_of(tb.skip(i as int), locale@),
            decreases self.translations.len() - i,
        {
            assert(tb.skip(i as int)[0] == tb[i as int]);
            if same_text(&self.translations[i].locale, locale) {
                return Some(i);
            }
            assert(tb.skip(i as int).drop_first() =~= tb.skip(i + 1));
            i = i + 1;
        }
        assert(tb.skip(i as int) =~= Seq::<(Seq<char>, Entries)>::empty());
        None
    }

    /// The text of `key` in `locale`, if any.
    fn text_for(&self, locale: &str, key: &str) -> (r: Option<String>)
        ensures
            match r {
                Some(t) => text_in(self.tables(), locale@, key@) == Some(t@),
                None => text_in(self.tables(), locale@, key@) is None,
            },
    {
        match self.find_table(locale) {
            Some(i) => lookup_entry(&self.translations[i].entries, key),
            None => None,
        }
    }

    /// The translation of `key` in the current locale, falling back to the base
    /// locale and then to the key itself.
    pub fn t(&self, key: &str) -> (r: String)
        ensures
            r@ == translate(self.tables(), self.locale(), key@),
    {
        match self.text_for(self.locale.as_str(), key) {
            Some(t) => t,
            None => {
                if !same_text(&self.locale, "zh-CN") {
                    match self.text_for("zh-CN", key) {
                        Some(t) => t,
                        None => key.to_string(),
                    }
                } else {
                    key.to_string()
                }
            },
        }
    }

    /// The translation of `key`, with each placeholder `{k}` of the options,
    /// in order, replaced by its value.
    pub fn t_with_options(&self, key: &str, options: &Vec<(String, String)>) -> (r: String)
        ensures
            r@ == fill_options(translate(self.tables(), self.locale(), key@), pairs_view(options@)),
    {
        let mut result = self.t(key);
        let ghost base = result@;
        let ghost opts = pairs_view(options@);
        let mut i: usize = 0;
        assert(opts.take(0) =~= Seq::<(Seq<char>, Seq<char>)>::empty());
        while i < options.len()
            invariant
                i <= options@.len(),
                opts == pairs_view(options@),
                result@ == fill_options(base, opts.take(i as int)),
            decreases options.len() - i,
        {
            let pat = "{".to_string().concat(options[i].0.as_str()).concat("}");
            proof {
                reveal_strlit("{");
                reveal_strlit("}");
            }
            assert(pat@.len() > 0);
            result = replace_text(result.as_str(), pat.as_str(), options[i].1.as_str());
            assert(opts.take(i + 1).drop_last() =~= opts.take(i as int));
            i = i + 1;
        }
        assert(opts.take(i as int) =~= opts);
        result
    }

    /// A copy of the current locale's translations; empty when the locale has
    /// none.
    pub fn get_all_translations(&self) -> (r: Vec<(String, String)>)
        ensures
            pairs_view(r@) == match table_of(self.tables(), self.locale()) {
                Some(e) => e,
                None => Seq::<(Seq<char>, Seq<char>)>::empty(),
            },
    {
        match self.find_table(self.locale.as_str()) {
            Some(i) => copy_pairs(&self.translations[i].entries),
            None => {
                let r: Vec<(String, String)> = Vec::new();
                assert(pairs_view(r@) =~= Seq::<(Seq<char>, Seq<char>)>::empty());
                r
            },
        }
    }

    /// The translations, by locale.
    pub closed spec fn tables(&self) -> Seq<(Seq<char>, Entries)> {
        self.translations@.map_values(|t: LocaleTable| (t.locale@, pairs_view(t.entries@)))
    }

    /// The current locale.
    pub closed spec fn locale(&self) -> Seq<char> {
        self.locale@
    }

    /// The registered callbacks with their ids, in order of registration.
    pub closed spec fn callbacks(&self) -> Seq<(usize, C)> {
        self.change_callbacks@
    }

    /// The id the next registered callback gets.
    pub closed spec fn next_id(&self) -> nat {
        self.next_callback_id as nat
    }

    /// A service with the built-in translations, in the base locale, with no
    /// callbacks.
    pub fn new() -> (r: Self)
        ensures
            r.tables() == builtin_tables(),
            r.locale() == base_locale(),
            r.callbacks() == Seq::<(usize, C)>::empty(),
            r.next_id() == 1,
    {
        let mut translations: Vec<LocaleTable> = Vec::new();
        translations.push(table("zh-CN", "SeaLantern", "Minecraft 服务器管理器"));
        translations.push(table("en-US", "SeaLantern", "Minecraft Server Manager"));
        translations.push(table("zh-TW", "SeaLantern", "Minecraft 伺服器管理器"));
        let r = I18nService {
            translations,
            locale: "zh-CN".to_string(),
            change_callbacks: Vec::new(),
            next_callback_id: 1,
        };
        assert(r.tables() =~= builtin_tables());
        assert(r.callbacks() =~= Seq::<(usize, C)>::empty());
        r
    }

    /// The current locale.
    pub fn get_locale(&self) -> (r: String)
        ensures
            r@ == self.locale(),
    {
        self.locale.clone()
    }

    /// Registers `callback` under a fresh id and returns its token.
    pub fn on_locale_change(&mut self, callback: C) -> (r: LocaleCallbackToken)
        requires
            old(self).next_id() < usize::MAX,
        ensures
            r.0 == old(self).next_id(),
            final(self).callbacks() == old(self).callbacks().push((r.0, callback)),
            final(self).next_id() == old(self).next_id() + 1,
            final(self).tables() == old(self).tables(),
            final(self).locale() == old(self).locale(),
    {
        let id = self.next_callback_id;
        self.next_callback_id = id + 1;
        self.change_callbacks.push((id, callback));
        LocaleCallbackToken(id)
    }

    /// Removes the callbacks registered under `token`.
    pub fn remove_locale_callback(&mut self, token: &LocaleCallbackToken)
        ensures
            final(self).callbacks() == old(self).callbacks().filter(|e: (usize, C)| e.0 != token.0),
            final(self).next_id() == old(self).next_id(),
            final(self).tables() == old(self).tables(),
            final(self).locale() == old(self).locale(),
    {
        let ghost orig = self.change_callbacks@;
        let ghost f = |e: (usize, C)| e.0 != token.0;
        let ghost mut k: int = 0;
        let mut i: usize = 0;
        assert(orig.take(0).filter(f) =~= Seq::<(usize, C)>::empty()) by {
            reveal(Seq::filter);
        }
        assert(self.change_callbacks@.take(0) =~= Seq::<(usize, C)>::empty());
        assert(orig.skip(0) =~= orig);
        while i < self.change_callbacks.len()
            invariant
                0 <= k <= orig.len(),
                i <= self.change_callbacks@.len(),
                f == (|e: (usize, C)| e.0 != token.0),
                self.change_callbacks@.skip(i as int) == orig.skip(k),
                self.change_callbacks@.take(i as int) == orig.take(k).filter(f),
                self.translations == old(self).translations,
                self.locale == old(self).locale,
                self.next_callback_id == old(self).next_callback_id,
            decreases self.change_callbacks.len() - i,
        {
            let ghost cb = self.change_callbacks@;
            assert(cb.skip(i as int).len() > 0);
            assert(orig.skip(k).len() > 0);
            assert(k < orig.len());
            assert(cb[i as int] == orig[k]) by {
                assert(cb.skip(i as int)[0] == orig.skip(k)[0]);
            }
            assert(orig.take(k + 1).drop_last() =~= orig.take(k));
            assert(orig.take(k + 1).filter(f) == if f(orig[k]) {
                orig.take(k).filter(f).push(orig[k])
            } else {
                orig.take(k).filter(f)
            }) by {
                reveal(Seq::filter);
            }
            if self.change_callbacks[i].0 == token.0 {
                self.change_callbacks.remove(i);
                assert(self.change_callbacks@.skip(i as int) =~= orig.skip(k + 1)) by {
                    assert(cb.skip(i + 1) =~= orig.skip(k + 1)) by {
                        assert(cb.skip(i as int).drop_first() =~= cb.skip(i + 1));
                        assert(orig.skip(k).drop_first() =~= orig.skip(k + 1));
                    }
                }
                assert(self.change_callbacks@.take(i as int) =~= cb.take(i as int));
            } else {
                i = i + 1;
                assert(cb.take(i as int) =~= cb.take(i - 1).push(cb[i - 1]));
                assert(cb.skip(i as int) =~= orig.skip(k + 1)) by {
                    assert(cb.skip(i - 1).drop_first() =~= cb.skip(i as int));
                    assert(orig.skip(k).drop_first() =~= orig.skip(k + 1));
                }
            }
            proof {
                k = k + 1;
            }
        }
        assert(orig.skip(k).len() == 0);
        assert(orig.take(k) =~= orig);
        assert(self.change_callbacks@.take(i as int) =~= self.change_callbacks@);
    }
}

impl<C: LocaleListener> I18nService<C> {
    /// Switches to `locale`, then calls every registered callback once, in
    /// order of registration, with the previous and the new locale. The
    /// result records those calls.
    pub fn set_locale(&mut self, locale: &str) -> (notified: Ghost<Seq<(usize, Seq<char>, Seq<char>)>>)
        ensures
            final(self).locale() == locale@,
            final(self).tables() == old(self).tables(),
            final(self).callbacks() == old(self).callbacks(),
            final(self).next_id() == old(self).next_id(),
            notified@ == notifications(old(self).callbacks(), old(self).locale(), locale@),
    {
        let previous = self.locale.clone();
        self.locale = locale.to_string();
        let ghost mut notes: Seq<(usize, Seq<char>, Seq<char>)> = Seq::empty();
        let mut i: usize = 0;
        assert(notifications(self.callbacks().take(0), previous@, locale@) =~= notes);
        while i < self.change_callbacks.len()
            invariant
                i <= self.change_callbacks@.len(),
                self.change_callbacks == old(self).change_callbacks,
                self.translations == old(self).translations,
                self.next_callback_id == old(self).next_callback_id,
                self.locale@ == locale@,
                previous@ == old(self).locale(),
                notes == notifications(self.callbacks().take(i as int), previous@, locale@),
            decreases self.change_callbacks.len() - i,
        {
            self.change_callbacks[i].1.locale_changed(previous.as_str(), locale);
            proof {
                notes = notes.push((self.change_callbacks@[i as int].0, previous@, locale@));
            }
            i = i + 1;
            assert(notifications(self.callbacks().take(i as int), previous@, locale@) =~= notes);
        }
        assert(self.callbacks().take(i as int) =~= self.callbacks());
        Ghost(notes)
    }
}

/// After the callbacks registered under `token` are removed, a locale change
/// notifies none of them, and every remaining callback still gets one
/// notification, in order.
pub proof fn lemma_removed_callback_not_notified<C>(
    callbacks: Seq<(usize, C)>,
    token: usize,
    previous: Seq<char>,
    current: Seq<char>,
)
    ensures
        ({
            let kept = callbacks.filter(|e: (usize, C)| e.0 != token);
            let n = notifications(kept, previous, current);
            &&& n.len() == kept.len()
            &&& forall|i: int| 0 <= i < n.len() ==> #[trigger] n[i].0 != token && n[i].0 == kept[i].0
        }),
{
    let f = |e: (usize, C)| e.0 != token;
    let kept = callbacks.filter(f);
    assert forall|i: int| 0 <= i < kept.len() implies #[trigger] kept[i].0 != token by {
        callbacks.lemma_filter_pred(f, i);
    }
}

} // verus!
