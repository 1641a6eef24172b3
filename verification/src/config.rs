//! User configuration: theme, UI switches and key bindings.
use vstd::prelude::*;
use crate::text::{chars_of, chars_eq};

verus! {

/// `std::slice::from_ref` views one value as a slice of length one.
pub assume_specification<T>[ std::slice::from_ref::<T> ](s: &T) -> (r: &[T])
    ensures
        r@ == seq![*s],
;

/// The keys bound to one action: `quit = "q"` or `down = ["j", "Down"]`.
pub enum KeyBinding {
    Single(String),
    Multiple(Vec<String>),
}

/// The key strings of a binding.
pub open spec fn binding_keys(b: KeyBinding) -> Seq<String> {
    match b {
        KeyBinding::Single(s) => seq![s],
        KeyBinding::Multiple(v) => v@,
    }
}

impl KeyBinding {
    /// The key strings of this binding.
    pub fn as_slice(&self) -> (r: &[String])
        ensures
            r@ == binding_keys(*self),
    {
        match self {
            KeyBinding::Single(s) => std::slice::from_ref(s),
            KeyBinding::Multiple(v) => v.as_slice(),
        }
    }
}

/// Action names with their bindings; each name occurs at most once, and the
/// order of first insertion is kept.
///
/// This stands in for a `HashMap<String, KeyBinding>`: vstd specifies
/// `HashMap` only for keys it knows how to hash (integers and `bool`), not
/// for `String`, so the table is a vector of pairs with distinct names.
pub struct KeyTable {
    entries: Vec<(String, KeyBinding)>,
}

/// The names of a table's entries.
pub open spec fn names_distinct(s: Seq<(String, KeyBinding)>) -> bool {
    forall|i: int, j: int| 0 <= i < j < s.len() ==> (#[trigger] s[i]).0@ != (#[trigger] s[j]).0@
}

/// The binding stored under `name`.
pub open spec fn table_get(s: Seq<(String, KeyBinding)>, name: Seq<char>) -> Option<KeyBinding>
    decreases s.len(),
{
    if s.len() == 0 {
        None
    } else if s.last().0@ == name {
        Some(s.last().1)
    } else {
        table_get(s.drop_last(), name)
    }
}

/// `s` with `name` bound to `b`: the entry is replaced in place when present,
/// appended otherwise.
pub open spec fn table_insert(s: Seq<(String, KeyBinding)>, name: String, b: KeyBinding) -> Seq<
    (String, KeyBinding),
> {
    match index_of_name(s, name@) {
        Some(i) => s.update(i, (name, b)),
        None => s.push((name, b)),
    }
}

pub open spec fn index_of_name(s: Seq<(String, KeyBinding)>, name: Seq<char>) -> Option<int> {
    if exists|i: int| 0 <= i < s.len() && (#[trigger] s[i]).0@ == name {
        Some(choose|i: int| 0 <= i < s.len() && (#[trigger] s[i]).0@ == name)
    } else {
        None
    }
}

/// Inserts every entry of `user`, in order, into `base`.
pub open spec fn table_insert_all(base: Seq<(String, KeyBinding)>, user: Seq<(String, KeyBinding)>) -> Seq<
    (String, KeyBinding),
>
    decreases user.len(),
{
    if user.len() == 0 {
        base
    } else {
        table_insert(table_insert_all(base, user.drop_last()), user.last().0, user.last().1)
    }
}

impl View for KeyTable {
    type V = Seq<(String, KeyBinding)>;

    closed spec fn view(&self) -> Seq<(String, KeyBinding)> {
        self.entries@
    }
}

proof fn lemma_table_get_found(s: Seq<(String, KeyBinding)>, i: int)
    requires
        names_distinct(s),
        0 <= i < s.len(),
    ensures
        table_get(s, s[i].0@) == Some(s[i].1),
    decreases s.len(),
{
    if i < s.len() - 1 {
        assert(s.last() == s[s.len() - 1]);
        assert(s.drop_last()[i] == s[i]);
        assert forall|a: int, b: int| 0 <= a < b < s.drop_last().len() implies (
        #[trigger] s.drop_last()[a]).0@ != (#[trigger] s.drop_last()[b]).0@ by {
            assert(s.drop_last()[a] == s[a]);
            assert(s.drop_last()[b] == s[b]);
        }
        lemma_table_get_found(s.drop_last(), i);
    }
}

proof fn lemma_table_get_absent(s: Seq<(String, KeyBinding)>, name: Seq<char>)
    requires
        forall|i: int| 0 <= i < s.len() ==> (#[trigger] s[i]).0@ != name,
    ensures
        table_get(s, name) is None,
    decreases s.len(),
{
    if s.len() > 0 {
        assert(s.last() == s[s.len() - 1]);
        assert forall|i: int| 0 <= i < s.drop_last().len() implies (#[trigger] s.drop_last()[i]).0@ != name by {
            assert(s.drop_last()[i] == s[i]);
        }
        lemma_table_get_absent(s.drop_last(), name);
    }
}

impl KeyTable {
    #[verifier::type_invariant]
    spec fn wf(self) -> bool {
        names_distinct(self.entries@)
    }

    /// An empty table.
    pub fn new() -> (r: KeyTable)
        ensures
            r@ == Seq::<(String, KeyBinding)>::empty(),
    {
        KeyTable { entries: Vec::new() }
    }

    /// Number of action names.
    pub fn len(&self) -> (n: usize)
        ensures
            n == self@.len(),
    {
        self.entries.len()
    }

    /// The `i`-th entry, in insertion order.
    pub fn entry(&self, i: usize) -> (r: (&String, &KeyBinding))
        requires
            i < self@.len(),
        ensures
            *r.0 == self@[i as int].0,
            *r.1 == self@[i as int].1,
    {
        (&self.entries[i].0, &self.entries[i].1)
    }

    fn find(&self, name: &[char]) -> (r: Option<usize>)
        ensures
            match r {
                Some(i) => i < self@.len() && self@[i as int].0@ == name@,
                None => forall|i: int| 0 <= i < self@.len() ==> (#[trigger] self@[i]).0@ != name@,
            },
    {
        let mut i: usize = 0;
        while i < self.entries.len()
            invariant
                i <= self@.len(),
                self@ == self.entries@,
                forall|j: int| 0 <= j < i ==> (#[trigger] self@[j]).0@ != name@,
            decreases self@.len() - i,
        {
            let k = chars_of(self.entries[i].0.as_str());
            if chars_eq(&k, name) {
                return Some(i);
            }
            i += 1;
        }
        None
    }

    /// The binding of action `name`.
    pub fn get(&self, name: &str) -> (r: Option<&KeyBinding>)
        ensures
            match r {
                Some(b) => table_get(self@, name@) == Some(*b),
                None => table_get(self@, name@) is None,
            },
    {
        proof {
            use_type_invariant(self);
        }
        let n = chars_of(name);
        match self.find(&n) {
            Some(i) => {
                proof {
                    lemma_table_get_found(self@, i as int);
                }
                Some(&self.entries[i].1)
            },
            None => {
                proof {
                    lemma_table_get_absent(self@, name@);
                }
                None
            },
        }
    }

    /// Whether action `name` has a binding.
    pub fn contains_key(&self, name: &str) -> (r: bool)
        ensures
            r == table_get(self@, name@) is Some,
    {
        self.get(name).is_some()
    }

    /// The entries, in insertion order.
    pub fn into_entries(self) -> (r: Vec<(String, KeyBinding)>)
        ensures
            r@ == self@,
    {
        self.entries
    }

    /// Binds `name` to `binding`, replacing an earlier binding of `name`.
    pub fn insert(&mut self, name: String, binding: KeyBinding)
        ensures
            final(self)@ == table_insert(old(self)@, name, binding),
    {
        proof {
            use_type_invariant(&*self);
        }
        let n = chars_of(name.as_str());
        let found = self.find(&n);
        let ghost s = self@;
        let mut e: Vec<(String, KeyBinding)> = Vec::new();
        std::mem::swap(&mut e, &mut self.entries);
        match found {
            Some(i) => {
                proof {
                    assert(forall|j: int| 0 <= j < s.len() && j != i ==> (#[trigger] s[j]).0@ != name@);
                    assert(index_of_name(s, name@) == Some(i as int));
                }
                e.set(i, (name, binding));
                proof {
                    let t = e@;
                    assert forall|a: int, b: int| 0 <= a < b < t.len() implies (#[trigger] t[a]).0@
                        != (#[trigger] t[b]).0@ by {
                        if a != i && b != i {
                            assert(t[a] == s[a] && t[b] == s[b]);
                        } else if a == i {
                            assert(t[b] == s[b]);
                        } else {
                            assert(t[a] == s[a]);
                        }
                    }
                }
            },
            None => {
                proof {
                    assert(index_of_name(s, name@) is None);
                }
                e.push((name, binding));
            },
        }
        self.entries = e;
    }
}

/// UI switches.
pub struct UiConfig {
    pub mouse: bool,
}

impl Default for UiConfig {
    fn default() -> (r: Self)
        ensures
            r.mouse,
    {
        UiConfig { mouse: default_mouse() }
    }
}

fn default_mouse() -> (r: bool)
    ensures
        r,
{
    true
}

/// Colors and rendering switches of the preview.
pub struct ThemeConfig {
    pub h1_color: String,
    pub heading_color: String,
    pub code_color: String,
    pub line_number_color: String,
    pub show_line_numbers: bool,
    pub image_height: u16,
    pub syntax_highlight: bool,
    pub syntax_theme: String,
}

/// The default `h1_color`.
pub fn default_h1_color() -> (r: String)
    ensures
        r@ == "lightred"@,
{
    String::from_str("lightred")
}

/// The default `line_number_color`.
pub fn default_line_number_color() -> (r: String)
    ensures
        r@ == "darkgray"@,
{
    String::from_str("darkgray")
}

/// The default `show_line_numbers`.
pub fn default_show_line_numbers() -> (r: bool)
    ensures
        r,
{
    true
}

/// The default `image_height`.
pub fn default_image_height() -> (r: u16)
    ensures
        r == 12,
{
    12
}

/// The default `syntax_highlight`.
pub fn default_syntax_highlight() -> (r: bool)
    ensures
        r,
{
    true
}

/// The default `syntax_theme`.
pub fn default_syntax_theme() -> (r: String)
    ensures
        r@ == "base16-ocean.dark"@,
{
    String::from_str("base16-ocean.dark")
}

/// The whole configuration.
pub struct Config {
    pub theme: ThemeConfig,
    pub ui: UiConfig,
    pub keys: KeyTable,
}

/// The key strings of a binding, as text.
pub open spec fn binding_view(b: KeyBinding) -> Seq<Seq<char>> {
    binding_keys(b).map_values(|k: String| k@)
}

/// A table as text: each action name with the key strings bound to it.
pub open spec fn table_view(s: Seq<(String, KeyBinding)>) -> Seq<(Seq<char>, Seq<Seq<char>>)> {
    s.map_values(|e: (String, KeyBinding)| (e.0@, binding_view(e.1)))
}

/// The built-in key bindings, in order.
pub open spec fn default_keys() -> Seq<(Seq<char>, Seq<Seq<char>>)> {
    seq![
        ("quit"@, seq!["q"@]),
        ("down"@, seq!["j"@, "Down"@]),
        ("up"@, seq!["k"@, "Up"@]),
        ("activate"@, seq!["Enter"@, "l"@, "Right"@]),
        ("back"@, seq!["Esc"@, "h"@, "Left"@]),
        ("search_forward"@, seq!["/"@]),
        ("search_backward"@, seq!["?"@]),
        ("repeat_next"@, seq!["n"@]),
        ("repeat_prev"@, seq!["N"@]),
        ("bottom"@, seq!["G"@]),
        ("halfpage_down"@, seq!["Ctrl+d"@]),
        ("halfpage_up"@, seq!["Ctrl+u"@]),
        ("page_down"@, seq!["Ctrl+f"@]),
        ("page_up"@, seq!["Ctrl+b"@]),
        ("line_jump_prompt"@, seq![":"@]),
        ("next_link"@, seq!["Tab"@]),
        ("prev_link"@, seq!["Shift+Tab"@]),
        ("nav_back"@, seq!["Ctrl+o"@, "["@]),
        ("nav_forward"@, seq!["Ctrl+]"@, "]"@]),
    ]
}

fn single(name: &str, key: &str) -> (r: (String, KeyBinding))
    ensures
        r.0@ == name@,
        binding_view(r.1) == seq![key@],
{
    let r = (name.to_string(), KeyBinding::Single(key.to_string()));
    assert(binding_view(r.1) =~= seq![key@]);
    r
}

fn pair(name: &str, k1: &str, k2: &str) -> (r: (String, KeyBinding))
    ensures
        r.0@ == name@,
        binding_view(r.1) == seq![k1@, k2@],
{
    let v: Vec<String> = vec![k1.to_string(), k2.to_string()];
    let r = (name.to_string(), KeyBinding::Multiple(v));
    assert(binding_view(r.1) =~= seq![k1@, k2@]);
    r
}

fn triple(name: &str, k1: &str, k2: &str, k3: &str) -> (r: (String, KeyBinding))
    ensures
        r.0@ == name@,
        binding_view(r.1) == seq![k1@, k2@, k3@],
{
    let v: Vec<String> = vec![k1.to_string(), k2.to_string(), k3.to_string()];
    let r = (name.to_string(), KeyBinding::Multiple(v));
    assert(binding_view(r.1) =~= seq![k1@, k2@, k3@]);
    r
}

impl Default for Config {
    /// The built-in configuration.
    fn default() -> (r: Self)
        ensures
            r.theme.h1_color@ == "lightred"@,
            r.theme.heading_color@ == "cyan"@,
            r.theme.code_color@ == "yellow"@,
            r.theme.line_number_color@ == "darkgray"@,
            r.theme.show_line_numbers,
            r.theme.image_height == 12,
            r.theme.syntax_highlight,
            r.theme.syntax_theme@ == "base16-ocean.dark"@,
            r.ui.mouse,
            table_view(r.keys@) == default_keys(),
    {
        let theme = ThemeConfig {
            h1_color: default_h1_color(),
            heading_color: "cyan".to_string(),
            code_color: "yellow".to_string(),
            line_number_color: default_line_number_color(),
            show_line_numbers: default_show_line_numbers(),
            image_height: default_image_height(),
            syntax_highlight: default_syntax_highlight(),
            syntax_theme: default_syntax_theme(),
        };
        let mut e: Vec<(String, KeyBinding)> = Vec::new();
        e.push(single("quit", "q"));
        e.push(pair("down", "j", "Down"));
        e.push(pair("up", "k", "Up"));
        e.push(triple("activate", "Enter", "l", "Right"));
        e.push(triple("back", "Esc", "h", "Left"));
        e.push(single("search_forward", "/"));
        e.push(single("search_backward", "?"));
        e.push(single("repeat_next", "n"));
        e.push(single("repeat_prev", "N"));
        e.push(single("bottom", "G"));
        e.push(single("halfpage_down", "Ctrl+d"));
        e.push(single("halfpage_up", "Ctrl+u"));
        e.push(single("page_down", "Ctrl+f"));
        e.push(single("page_up", "Ctrl+b"));
        e.push(single("line_jump_prompt", ":"));
        e.push(single("next_link", "Tab"));
        e.push(single("prev_link", "Shift+Tab"));
        e.push(pair("nav_back", "Ctrl+o", "["));
        e.push(pair("nav_forward", "Ctrl+]", "]"));
        proof {
            assert(table_view(e@) =~= default_keys());
            lemma_default_names_distinct(e@);
        }
        Config { theme, ui: UiConfig::default(), keys: KeyTable { entries: e } }
    }
}

proof fn lemma_default_names_distinct(s: Seq<(String, KeyBinding)>)
    requires
        table_view(s) == default_keys(),
    ensures
        names_distinct(s),
{
    reveal_strlit("quit");
    reveal_strlit("down");
    reveal_strlit("up");
    reveal_strlit("activate");
    reveal_strlit("back");
    reveal_strlit("search_forward");
    reveal_strlit("search_backward");
    reveal_strlit("repeat_next");
    reveal_strlit("repeat_prev");
    reveal_strlit("bottom");
    reveal_strlit("halfpage_down");
    reveal_strlit("halfpage_up");
    reveal_strlit("page_down");
    reveal_strlit("page_up");
    reveal_strlit("line_jump_prompt");
    reveal_strlit("next_link");
    reveal_strlit("prev_link");
    reveal_strlit("nav_back");
    reveal_strlit("nav_forward");
    assert(s.len() == 19) by {
        assert(table_view(s).len() == s.len());
    }
    assert forall|i: int, j: int| 0 <= i < j < s.len() implies (#[trigger] s[i]).0@ != (
    #[trigger] s[j]).0@ by {
        assert(table_view(s)[i].0 == s[i].0@);
        assert(table_view(s)[j].0 == s[j].0@);
        let a = default_keys()[i].0;
        let b = default_keys()[j].0;
        if a.len() == b.len() {
            assert(a[0] != b[0] || a[7] != b[7]);
        }
    }
}

proof fn lemma_insert_distinct(s: Seq<(String, KeyBinding)>, name: String, b: KeyBinding)
    requires
        names_distinct(s),
    ensures
        names_distinct(table_insert(s, name, b)),
        table_insert(s, name, b).len() >= s.len(),
{
    let t = table_insert(s, name, b);
    match index_of_name(s, name@) {
        Some(i) => {
            assert(0 <= i < s.len() && s[i].0@ == name@);
            assert forall|x: int, y: int| 0 <= x < y < t.len() implies (#[trigger] t[x]).0@ != (
            #[trigger] t[y]).0@ by {
                if x != i && y != i {
                    assert(t[x] == s[x] && t[y] == s[y]);
                } else if x == i {
                    assert(t[y] == s[y]);
                } else {
                    assert(t[x] == s[x]);
                }
            }
        },
        None => {
            assert forall|x: int, y: int| 0 <= x < y < t.len() implies (#[trigger] t[x]).0@ != (
            #[trigger] t[y]).0@ by {
                assert(t[x] == s[x]);
                if y < s.len() {
                    assert(t[y] == s[y]);
                } else {
                    assert(!(0 <= x < s.len() && (#[trigger] s[x]).0@ == name@));
                }
            }
        },
    }
}

proof fn lemma_get_insert(s: Seq<(String, KeyBinding)>, name: String, b: KeyBinding, n: Seq<char>)
    requires
        names_distinct(s),
    ensures
        table_get(table_insert(s, name, b), n) == if n == name@ {
            Some(b)
        } else {
            table_get(s, n)
        },
{
    let t = table_insert(s, name, b);
    lemma_insert_distinct(s, name, b);
    let k: int = match index_of_name(s, name@) {
        Some(i) => i,
        None => s.len() as int,
    };
    assert(0 <= k < t.len() && t[k] == (name, b));
    assert(forall|j: int| 0 <= j < s.len() && j != k ==> t[j] == s[j]);
    if n == name@ {
        lemma_table_get_found(t, k);
    } else if exists|j: int| 0 <= j < s.len() && (#[trigger] s[j]).0@ == n {
        let j = choose|j: int| 0 <= j < s.len() && (#[trigger] s[j]).0@ == n;
        lemma_table_get_found(s, j);
        assert(t[j] == s[j]);
        lemma_table_get_found(t, j);
    } else {
        lemma_table_get_absent(s, n);
        assert forall|j: int| 0 <= j < t.len() implies (#[trigger] t[j]).0@ != n by {
            if j != k {
                assert(t[j] == s[j]);
            }
        }
        lemma_table_get_absent(t, n);
    }
}

/// Merging keeps every action name once: inserting a whole user table into a
/// table with distinct names gives a table with distinct names.
pub proof fn lemma_insert_all_distinct(base: Seq<(String, KeyBinding)>, user: Seq<(String, KeyBinding)>)
    requires
        names_distinct(base),
    ensures
        names_distinct(table_insert_all(base, user)),
    decreases user.len(),
{
    if user.len() > 0 {
        lemma_insert_all_distinct(base, user.drop_last());
        lemma_insert_distinct(table_insert_all(base, user.drop_last()), user.last().0, user.last().1);
    }
}

/// After a merge, an action that the user binds has the user's binding, and
/// every other action keeps the binding it had in the base configuration.
pub proof fn lemma_merge_lookup(base: Seq<(String, KeyBinding)>, user: Seq<(String, KeyBinding)>, name: Seq<char>)
    requires
        names_distinct(base),
    ensures
        table_get(table_insert_all(base, user), name) == match table_get(user, name) {
            Some(b) => Some(b),
            None => table_get(base, name),
        },
    decreases user.len(),
{
    if user.len() > 0 {
        let prefix = user.drop_last();
        lemma_merge_lookup(base, prefix, name);
        lemma_insert_all_distinct(base, prefix);
        lemma_get_insert(table_insert_all(base, prefix), user.last().0, user.last().1, name);
    }
}

/// Applies a user configuration over `base`: theme and UI settings are
/// replaced as a whole, and every action the user binds replaces its default
/// binding while the other actions keep theirs.
pub fn merge(base: Config, user: Config) -> (r: Config)
    ensures
        r.theme == user.theme,
        r.ui == user.ui,
        r.keys@ == table_insert_all(base.keys@, user.keys@),
{
    let mut keys = base.keys;
    let ghost all = user.keys@;
    let mut rest = user.keys.into_entries();
    let total = rest.len();
    let mut i: usize = 0;
    while rest.len() > 0
        invariant
            all.len() == total,
            i <= all.len(),
            rest@ == all.skip(i as int),
            keys@ == table_insert_all(base.keys@, all.take(i as int)),
        decreases rest@.len(),
    {
        let (name, binding) = rest.remove(0);
        assert(all[i as int] == (name, binding));
        keys.insert(name, binding);
        assert(all.take(i + 1).drop_last() =~= all.take(i as int));
        assert(all.skip(i + 1) =~= all.skip(i as int).remove(0));
        i += 1;
    }
    assert(all.take(i as int) =~= all);
    Config { theme: user.theme, ui: user.ui, keys }
}

} // verus!
