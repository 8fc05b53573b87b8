use vstd::prelude::*;

use crate::color::Rgb;

verus! {

/// The number of recently used colors kept when no valid limit is stored.
pub const DEFAULT_PALETTE_LIMIT: usize = 18;

/// The most favorites that are kept.
pub const FAVORITES_LIMIT: usize = 48;

/// The palette limits that can be chosen.
pub const PALETTE_LIMIT_OPTIONS: [usize; 4] = [12, 18, 24, 36];

/// How long a notice stays on screen.
#[derive(Clone, Copy, Debug, PartialEq, Eq, Structural)]
pub enum ToastDuration {
    Short,
    Normal,
    Long,
}

/// One of the palette limits that can be chosen.
pub open spec fn is_palette_limit_option(n: int) -> bool {
    n == 12 || n == 18 || n == 24 || n == 36
}

/// The palette limit in force for a stored one: the stored value if it is
/// one of the options, else the default.
pub open spec fn effective_palette_limit(stored: usize) -> usize {
    if is_palette_limit_option(stored as int) {
        stored
    } else {
        DEFAULT_PALETTE_LIMIT
    }
}

/// The first `n` colors of `s`, or all of them if there are fewer, as
/// `Vec::truncate` leaves them.
pub open spec fn truncated(s: Seq<Rgb>, n: int) -> Seq<Rgb> {
    if n < s.len() {
        s.take(n)
    } else {
        s
    }
}

/// `c` first, followed by `s` without its first occurrence of `c`.
pub open spec fn moved_to_front(s: Seq<Rgb>, c: Rgb) -> Seq<Rgb> {
    seq![c] + s.remove_value(c)
}

/// The palette after `c` is used: `c` moves to the front, and the palette
/// is cut to its limit.
pub open spec fn palette_after_use(s: Seq<Rgb>, c: Rgb, limit: int) -> Seq<Rgb> {
    truncated(moved_to_front(s, c), limit)
}

/// The favorites after `c` is toggled: removed if it is there, else put in
/// front, and cut to the favorites limit.
pub open spec fn favorites_after_toggle(f: Seq<Rgb>, c: Rgb) -> Seq<Rgb> {
    if f.contains(c) {
        f.remove_value(c)
    } else {
        truncated(seq![c] + f, FAVORITES_LIMIT as int)
    }
}

pub open spec fn toast_label(d: ToastDuration) -> Seq<char> {
    match d {
        ToastDuration::Short => "Short"@,
        ToastDuration::Normal => "Normal"@,
        ToastDuration::Long => "Long"@,
    }
}

pub open spec fn toast_millis(d: ToastDuration) -> u64 {
    match d {
        ToastDuration::Short => 1200,
        ToastDuration::Normal => 2000,
        ToastDuration::Long => 3500,
    }
}

impl Default for ToastDuration {
    fn default() -> (d: Self)
        ensures
            d == ToastDuration::Normal,
    {
        Self::Normal
    }
}

impl ToastDuration {
    pub const OPTIONS: [Self; 3] = [Self::Short, Self::Normal, Self::Long];

    pub fn label(self) -> (s: &'static str)
        ensures
            s@ == toast_label(self),
    {
        match self {
            Self::Short => "Short",
            Self::Normal => "Normal",
            Self::Long => "Long",
        }
    }

    pub fn millis(self) -> (ms: u64)
        ensures
            ms == toast_millis(self),
    {
        match self {
            Self::Short => 1_200,
            Self::Normal => 2_000,
            Self::Long => 3_500,
        }
    }
}

/// Whether `limit` is one of `PALETTE_LIMIT_OPTIONS`.
pub fn is_limit_option(limit: usize) -> (b: bool)
    ensures
        b == is_palette_limit_option(limit as int),
{
    let options = PALETTE_LIMIT_OPTIONS;
    assert(options@ =~= seq![12usize, 18, 24, 36]);
    let mut i: usize = 0;
    while i < options.len()
        invariant
            i <= options@.len(),
            options@ == seq![12usize, 18, 24, 36],
            forall|j: int| 0 <= j < i ==> options@[j] != limit,
        decreases options@.len() - i,
    {
        if options[i] == limit {
            return true;
        }
        i = i + 1;
    }
    assert(options@[0] != limit && options@[1] != limit && options@[2] != limit && options@[3]
        != limit);
    false
}

/// What the user has chosen in the settings.
#[derive(Clone, Copy, Debug)]
pub struct AppSettings {
    palette_limit: usize,
    toast_duration: ToastDuration,
}

/// The stored settings, as plain values.
#[derive(Clone, Copy, Debug, PartialEq, Eq, Structural)]
pub struct SettingsView {
    pub palette_limit: usize,
    pub toast_duration: ToastDuration,
}

impl View for AppSettings {
    type V = SettingsView;

    closed spec fn view(&self) -> SettingsView {
        SettingsView { palette_limit: self.palette_limit, toast_duration: self.toast_duration }
    }
}

impl Default for AppSettings {
    fn default() -> (s: Self)
        ensures
            s@ == (SettingsView {
                palette_limit: DEFAULT_PALETTE_LIMIT,
                toast_duration: ToastDuration::Normal,
            }),
    {
        Self { palette_limit: DEFAULT_PALETTE_LIMIT, toast_duration: ToastDuration::default() }
    }
}

impl AppSettings {
    /// Settings as they were stored, whether or not the limit is an option.
    pub fn from_stored(palette_limit: usize, toast_duration: ToastDuration) -> (s: Self)
        ensures
            s@ == (SettingsView { palette_limit, toast_duration }),
    {
        Self { palette_limit, toast_duration }
    }

    /// The palette limit as it was stored.
    pub fn stored_palette_limit(&self) -> (n: usize)
        ensures
            n == self@.palette_limit,
    {
        self.palette_limit
    }

    /// The palette limit in force: the stored one if it is an option, else
    /// the default.
    pub fn palette_limit(&self) -> (n: usize)
        ensures
            n == effective_palette_limit(self@.palette_limit),
            is_palette_limit_option(n as int),
    {
        if is_limit_option(self.palette_limit) {
            self.palette_limit
        } else {
            DEFAULT_PALETTE_LIMIT
        }
    }

    pub fn toast_duration(&self) -> (d: ToastDuration)
        ensures
            d == self@.toast_duration,
    {
        self.toast_duration
    }
}

/// The saved colors: the recently used palette, the favorites, and the
/// settings.
#[derive(Debug)]
pub struct ColorCollections {
    palette: Vec<Rgb>,
    favorites: Vec<Rgb>,
    settings: AppSettings,
}

/// The saved colors as plain values.
pub ghost struct CollectionsView {
    pub palette: Seq<Rgb>,
    pub favorites: Seq<Rgb>,
    pub settings: SettingsView,
}

impl CollectionsView {
    /// The stored palette limit is one of the options, and the palette
    /// holds no more colors than it.
    pub open spec fn well_formed(self) -> bool {
        &&& is_palette_limit_option(self.settings.palette_limit as int)
        &&& self.palette.len() <= self.settings.palette_limit
    }
}

impl View for ColorCollections {
    type V = CollectionsView;

    closed spec fn view(&self) -> CollectionsView {
        CollectionsView {
            palette: self.palette@,
            favorites: self.favorites@,
            settings: self.settings@,
        }
    }
}

impl Default for ColorCollections {
    fn default() -> (c: Self)
        ensures
            c@.palette == Seq::<Rgb>::empty(),
            c@.favorites == Seq::<Rgb>::empty(),
            c@.settings == (SettingsView {
                palette_limit: DEFAULT_PALETTE_LIMIT,
                toast_duration: ToastDuration::Normal,
            }),
            c@.well_formed(),
    {
        Self { palette: Vec::new(), favorites: Vec::new(), settings: AppSettings::default() }
    }
}

impl Clone for ColorCollections {
    fn clone(&self) -> (c: Self)
        ensures
            c@ == self@,
    {
        proof {
            use_type_invariant(self);
        }
        let palette = self.palette.clone();
        let favorites = self.favorites.clone();
        assert(palette@ =~= self.palette@);
        assert(favorites@ =~= self.favorites@);
        Self { palette, favorites, settings: self.settings }
    }
}

impl ColorCollections {
    #[verifier::type_invariant]
    spec fn collections_invariant(self) -> bool {
        self@.well_formed()
    }

    /// Saved colors as they were read back: the stored palette limit is
    /// replaced by the one in force, and the palette is cut to it.
    pub fn from_parts(palette: Vec<Rgb>, favorites: Vec<Rgb>, settings: AppSettings) -> (c: Self)
        ensures
            c@.palette == truncated(palette@, effective_palette_limit(settings@.palette_limit) as int),
            c@.favorites == favorites@,
            c@.settings == (SettingsView {
                palette_limit: effective_palette_limit(settings@.palette_limit),
                toast_duration: settings@.toast_duration,
            }),
            c@.well_formed(),
    {
        let (palette, settings) = normalize(palette, settings);
        Self { palette, favorites, settings }
    }

    pub fn palette(&self) -> (colors: &[Rgb])
        ensures
            colors@ == self@.palette,
    {
        self.palette.as_slice()
    }

    pub fn favorites(&self) -> (colors: &[Rgb])
        ensures
            colors@ == self@.favorites,
    {
        self.favorites.as_slice()
    }

    pub fn settings(&self) -> (settings: &AppSettings)
        ensures
            settings@ == self@.settings,
    {
        &self.settings
    }

    /// Records that `color` was used: it moves to the front of the palette,
    /// and the palette is cut to its limit.
    pub fn add_palette_color(&mut self, color: Rgb)
        ensures
            final(self)@.palette == palette_after_use(
                old(self)@.palette,
                color,
                old(self)@.settings.palette_limit as int,
            ),
            final(self)@.favorites == old(self)@.favorites,
            final(self)@.settings == old(self)@.settings,
            final(self)@.well_formed(),
    {
        proof {
            use_type_invariant(&*self);
        }
        let limit = self.settings.palette_limit();
        let mut palette: Vec<Rgb> = Vec::new();
        std::mem::swap(&mut palette, &mut self.palette);
        move_to_front(&mut palette, color);
        palette.truncate(limit);
        self.palette = palette;
        proof {
            use_type_invariant(&*self);
        }
    }

    /// Chooses a palette limit; a value that is not one of the options is
    /// ignored.
    pub fn set_palette_limit(&mut self, limit: usize)
        ensures
            is_palette_limit_option(limit as int) ==> {
                &&& final(self)@.palette == truncated(old(self)@.palette, limit as int)
                &&& final(self)@.settings == (SettingsView {
                    palette_limit: limit,
                    ..old(self)@.settings
                })
            },
            !is_palette_limit_option(limit as int) ==> final(self)@ == old(self)@,
            final(self)@.favorites == old(self)@.favorites,
            final(self)@.well_formed(),
    {
        proof {
            use_type_invariant(&*self);
        }
        if !is_limit_option(limit) {
            return;
        }
        let mut palette: Vec<Rgb> = Vec::new();
        std::mem::swap(&mut palette, &mut self.palette);
        palette.truncate(limit);
        self.palette = palette;
        self.settings.palette_limit = limit;
        proof {
            use_type_invariant(&*self);
        }
    }

    pub fn set_toast_duration(&mut self, duration: ToastDuration)
        ensures
            final(self)@.settings == (SettingsView {
                toast_duration: duration,
                ..old(self)@.settings
            }),
            final(self)@.palette == old(self)@.palette,
            final(self)@.favorites == old(self)@.favorites,
            final(self)@.well_formed(),
    {
        proof {
            use_type_invariant(&*self);
        }
        self.settings.toast_duration = duration;
        proof {
            use_type_invariant(&*self);
        }
    }

    pub fn clear_palette(&mut self)
        ensures
            final(self)@.palette == Seq::<Rgb>::empty(),
            final(self)@.favorites == old(self)@.favorites,
            final(self)@.settings == old(self)@.settings,
            final(self)@.well_formed(),
    {
        proof {
            use_type_invariant(&*self);
        }
        self.palette = Vec::new();
        proof {
            use_type_invariant(&*self);
        }
    }

    pub fn clear_favorites(&mut self)
        ensures
            final(self)@.favorites == Seq::<Rgb>::empty(),
            final(self)@.palette == old(self)@.palette,
            final(self)@.settings == old(self)@.settings,
            final(self)@.well_formed(),
    {
        proof {
            use_type_invariant(&*self);
        }
        self.favorites = Vec::new();
        proof {
            use_type_invariant(&*self);
        }
    }

    /// Removes `color` from the favorites if it is there, and returns false;
    /// else puts it in front, keeps at most the favorites limit, and returns
    /// true.
    pub fn toggle_favorite(&mut self, color: Rgb) -> (added: bool)
        ensures
            added == !old(self)@.favorites.contains(color),
            final(self)@.favorites == favorites_after_toggle(old(self)@.favorites, color),
            final(self)@.palette == old(self)@.palette,
            final(self)@.settings == old(self)@.settings,
            final(self)@.well_formed(),
    {
        proof {
            use_type_invariant(&*self);
        }
        let mut favorites: Vec<Rgb> = Vec::new();
        std::mem::swap(&mut favorites, &mut self.favorites);
        let added = match position_of(&favorites, color) {
            Some(index) => {
                favorites.remove(index);
                false
            },
            None => {
                favorites.insert(0, color);
                assert(favorites@ =~= seq![color] + old(self)@.favorites);
                favorites.truncate(FAVORITES_LIMIT);
                true
            },
        };
        self.favorites = favorites;
        proof {
            use_type_invariant(&*self);
        }
        added
    }

    /// Removes the first occurrence of `color` from the favorites.
    pub fn remove_favorite(&mut self, color: Rgb)
        ensures
            final(self)@.favorites == old(self)@.favorites.remove_value(color),
            final(self)@.palette == old(self)@.palette,
            final(self)@.settings == old(self)@.settings,
            final(self)@.well_formed(),
    {
        proof {
            use_type_invariant(&*self);
        }
        let mut favorites: Vec<Rgb> = Vec::new();
        std::mem::swap(&mut favorites, &mut self.favorites);
        if let Some(index) = position_of(&favorites, color) {
            favorites.remove(index);
        }
        self.favorites = favorites;
        proof {
            use_type_invariant(&*self);
        }
    }

    pub fn is_favorite(&self, color: Rgb) -> (b: bool)
        ensures
            b == self@.favorites.contains(color),
    {
        position_of(&self.favorites, color).is_some()
    }
}

/// Replaces the stored palette limit by the one in force, and cuts the
/// palette to it.
fn normalize(palette: Vec<Rgb>, settings: AppSettings) -> (res: (Vec<Rgb>, AppSettings))
    ensures
        res.0@ == truncated(palette@, effective_palette_limit(settings@.palette_limit) as int),
        res.1@ == (SettingsView {
            palette_limit: effective_palette_limit(settings@.palette_limit),
            toast_duration: settings@.toast_duration,
        }),
{
    let limit = settings.palette_limit();
    let mut palette = palette;
    palette.truncate(limit);
    (palette, AppSettings { palette_limit: limit, toast_duration: settings.toast_duration })
}

/// The index of the first occurrence of `color`.
fn position_of(colors: &Vec<Rgb>, color: Rgb) -> (res: Option<usize>)
    ensures
        res matches Some(i) ==> colors@.index_of_first(color) == Some(i as int),
        res is None ==> colors@.index_of_first(color) is None,
        res is Some <==> colors@.contains(color),
        res matches Some(i) ==> i < colors@.len() && colors@[i as int] == color,
{
    let mut i: usize = 0;
    while i < colors.len()
        invariant
            i <= colors@.len(),
            forall|j: int| 0 <= j < i ==> colors@[j] != color,
        decreases colors@.len() - i,
    {
        if colors[i] == color {
            proof {
                colors@.index_of_first_ensures(color);
                match colors@.index_of_first(color) {
                    Some(k) => {
                        assert(colors@[i as int] == color);
                        if k < i {
                            assert(colors@[k] != color);
                        }
                        assert(k == i);
                    },
                    None => {
                        assert(colors@.contains(color));
                    },
                }
            }
            return Some(i);
        }
        i = i + 1;
    }
    proof {
        colors@.index_of_first_ensures(color);
        if colors@.contains(color) {
            let k = choose|k: int| 0 <= k < colors@.len() && colors@[k] == color;
            assert(colors@[k] != color);
        }
    }
    None
}

/// Moves `color` to the front: its first occurrence is removed, and it is
/// put first.
fn move_to_front(colors: &mut Vec<Rgb>, color: Rgb)
    ensures
        final(colors)@ == moved_to_front(old(colors)@, color),
{
    if let Some(index) = position_of(colors, color) {
        colors.remove(index);
    }
    let ghost rest = colors@;
    assert(rest == old(colors)@.remove_value(color));
    colors.insert(0, color);
    assert(colors@ =~= seq![color] + rest);
}

/// What removing the first occurrence of `c` does to a sequence of colors.
proof fn lemma_remove_value(s: Seq<Rgb>, c: Rgb)
    ensures
        !s.contains(c) ==> s.remove_value(c) == s,
        s.contains(c) ==> s.remove_value(c).len() == s.len() - 1,
        s.len() > 0 && s[0] == c ==> s.remove_value(c) == s.drop_first(),
        forall|x: Rgb| x != c ==> (#[trigger] s.remove_value(c).contains(x) <==> s.contains(x)),
        s.no_duplicates() ==> !s.remove_value(c).contains(c),
        s.no_duplicates() ==> s.remove_value(c).no_duplicates(),
{
    s.index_of_first_ensures(c);
    match s.index_of_first(c) {
        Some(k) => {
            let r = s.remove(k);
            s.remove_ensures(k);
            if s.len() > 0 && s[0] == c {
                assert(k == 0);
                assert(r =~= s.drop_first());
            }
            assert forall|x: Rgb| x != c implies (#[trigger] r.contains(x) <==> s.contains(x)) by {
                if r.contains(x) {
                    let j = choose|j: int| 0 <= j < r.len() && r[j] == x;
                    if j < k {
                        assert(s[j] == x);
                    } else {
                        assert(s[j + 1] == x);
                    }
                }
                if s.contains(x) {
                    let j = choose|j: int| 0 <= j < s.len() && s[j] == x;
                    if j < k {
                        assert(r[j] == x);
                    } else {
                        assert(j != k);
                        assert(r[j - 1] == x);
                    }
                }
            }
            if s.no_duplicates() {
                if r.contains(c) {
                    let j = choose|j: int| 0 <= j < r.len() && r[j] == c;
                    if j < k {
                        assert(s[j] == c);
                    } else {
                        assert(s[j + 1] == c);
                    }
                }
                assert forall|i: int, j: int|
                    0 <= i < r.len() && 0 <= j < r.len() && i != j implies r[i] != r[j] by {
                    let si = if i < k { i } else { i + 1 };
                    let sj = if j < k { j } else { j + 1 };
                    assert(r[i] == s[si]);
                    assert(r[j] == s[sj]);
                }
            }
        },
        None => {},
    }
}

/// Cutting a sequence keeps only colors it held, and keeps them distinct.
proof fn lemma_truncated(s: Seq<Rgb>, n: int)
    requires
        0 <= n,
    ensures
        truncated(s, n).len() <= n,
        truncated(s, n).len() <= s.len(),
        truncated(s, n).len() == if s.len() < n { s.len() as int } else { n },
        forall|i: int| 0 <= i < truncated(s, n).len() ==> #[trigger] truncated(s, n)[i] == s[i],
        forall|x: Rgb| #[trigger] truncated(s, n).contains(x) ==> s.contains(x),
        s.no_duplicates() ==> truncated(s, n).no_duplicates(),
        s.len() <= n ==> truncated(s, n) == s,
{
    assert forall|x: Rgb| #[trigger] truncated(s, n).contains(x) implies s.contains(x) by {
        let j = choose|j: int| 0 <= j < truncated(s, n).len() && truncated(s, n)[j] == x;
        assert(s[j] == x);
    }
}

/// Using a color twice in a row leaves the palette as using it once does.
pub proof fn lemma_palette_use_idempotent(s: Seq<Rgb>, c: Rgb, limit: int)
    requires
        0 <= limit,
    ensures
        palette_after_use(palette_after_use(s, c, limit), c, limit) == palette_after_use(s, c, limit),
{
    let q = palette_after_use(s, c, limit);
    let m = moved_to_front(s, c);
    lemma_truncated(m, limit);
    if limit > 0 {
        assert(q[0] == m[0]);
        lemma_remove_value(q, c);
        assert(moved_to_front(q, c) =~= q);
        lemma_truncated(q, limit);
    } else {
        assert(q =~= Seq::<Rgb>::empty());
        assert(palette_after_use(q, c, limit) =~= Seq::<Rgb>::empty());
    }
}

/// After a color is used it stands first in the palette; the palette holds
/// no other colors than before, holds at most its limit, and holds no color
/// twice if it held none twice before.
pub proof fn lemma_palette_use(s: Seq<Rgb>, c: Rgb, limit: int)
    requires
        0 < limit,
    ensures
        palette_after_use(s, c, limit)[0] == c,
        palette_after_use(s, c, limit).len() <= limit,
        forall|x: Rgb| #[trigger] palette_after_use(s, c, limit).contains(x) ==> x == c
            || s.contains(x),
        s.no_duplicates() ==> palette_after_use(s, c, limit).no_duplicates(),
{
    let m = moved_to_front(s, c);
    let r = s.remove_value(c);
    lemma_remove_value(s, c);
    lemma_truncated(m, limit);
    assert forall|x: Rgb| #[trigger] m.contains(x) implies x == c || s.contains(x) by {
        if x != c {
            let j = choose|j: int| 0 <= j < m.len() && m[j] == x;
            assert(j > 0);
            assert(r[j - 1] == x);
            assert(r.contains(x));
        }
    }
    if s.no_duplicates() {
        assert forall|i: int, j: int|
            0 <= i < m.len() && 0 <= j < m.len() && i != j implies m[i] != m[j] by {
            if i == 0 {
                assert(m[j] == r[j - 1]);
                assert(r.contains(m[j]));
            } else if j == 0 {
                assert(m[i] == r[i - 1]);
                assert(r.contains(m[i]));
            } else {
                assert(m[i] == r[i - 1]);
                assert(m[j] == r[j - 1]);
            }
        }
    }
}

/// Toggling a color that is not a favorite twice, while there is room for
/// it, leaves the favorites as they were.
pub proof fn lemma_toggle_twice(f: Seq<Rgb>, c: Rgb)
    requires
        !f.contains(c),
        f.len() < FAVORITES_LIMIT,
    ensures
        favorites_after_toggle(favorites_after_toggle(f, c), c) == f,
{
    let g = seq![c] + f;
    lemma_truncated(g, FAVORITES_LIMIT as int);
    assert(g[0] == c);
    assert(g.contains(c));
    lemma_remove_value(g, c);
    assert(g.drop_first() =~= f);
}

/// When no color is a favorite twice, toggling makes `c` a favorite exactly
/// when it was not one, and still no color is a favorite twice.
pub proof fn lemma_toggle_membership(f: Seq<Rgb>, c: Rgb)
    requires
        f.no_duplicates(),
    ensures
        favorites_after_toggle(f, c).contains(c) == !f.contains(c),
        favorites_after_toggle(f, c).no_duplicates(),
        favorites_after_toggle(f, c).len() <= FAVORITES_LIMIT || f.contains(c),
{
    lemma_remove_value(f, c);
    if !f.contains(c) {
        let g = seq![c] + f;
        lemma_truncated(g, FAVORITES_LIMIT as int);
        assert(truncated(g, FAVORITES_LIMIT as int)[0] == c);
        assert forall|i: int, j: int|
            0 <= i < g.len() && 0 <= j < g.len() && i != j implies g[i] != g[j] by {
            if i == 0 {
                assert(g[j] == f[j - 1]);
            } else if j == 0 {
                assert(g[i] == f[i - 1]);
            }
        }
    }
}

/// When no color is a favorite twice, a removed favorite is no longer one.
pub proof fn lemma_remove_favorite(f: Seq<Rgb>, c: Rgb)
    requires
        f.no_duplicates(),
    ensures
        !f.remove_value(c).contains(c),
        f.remove_value(c).no_duplicates(),
{
    lemma_remove_value(f, c);
}

/// Saved colors that are read back as they were written are restored
/// unchanged: `from_parts` leaves a well-formed collection's palette, limit
/// and duration as they are.
pub proof fn lemma_restore_round_trip(v: CollectionsView)
    requires
        v.well_formed(),
    ensures
        effective_palette_limit(v.settings.palette_limit) == v.settings.palette_limit,
        truncated(v.palette, effective_palette_limit(v.settings.palette_limit) as int) == v.palette,
{
}

/// Every toast duration is offered, once, in `ToastDuration::OPTIONS`.
pub proof fn lemma_every_duration_offered(duration: ToastDuration)
    ensures
        ToastDuration::OPTIONS@.contains(duration),
        ToastDuration::OPTIONS@.no_duplicates(),
{
    let all = ToastDuration::OPTIONS@;
    assert(all =~= seq![ToastDuration::Short, ToastDuration::Normal, ToastDuration::Long]);
    let i: int = match duration {
        ToastDuration::Short => 0,
        ToastDuration::Normal => 1,
        ToastDuration::Long => 2,
    };
    assert(all[i] == duration);
}

/// Removing the first occurrence, at `k`, of a color closes up its place
/// and keeps the other colors in their order.
proof fn lemma_remove_first_at(s: Seq<Rgb>, c: Rgb, k: int)
    requires
        0 <= k < s.len(),
        s[k] == c,
        forall|j: int| 0 <= j < k ==> s[j] != c,
    ensures
        s.remove_value(c).len() == s.len() - 1,
        forall|i: int|
            0 <= i < s.len() - 1 ==> #[trigger] s.remove_value(c)[i] == if i < k {
                s[i]
            } else {
                s[i + 1]
            },
{
    s.index_of_first_ensures(c);
    assert(s.contains(c));
    let m = s.index_of_first(c)->Some_0;
    if m < k {
        assert(s[m] != c);
    }
    if k < m {
        assert(s[k] != c);
    }
    assert(m == k);
    s.remove_ensures(k);
}

/// Using a color already in the palette, first found at `k`: it comes first,
/// the colors before it move one place back, those after it stay, and the
/// palette is cut to its limit.
pub proof fn lemma_palette_use_keeps_order(s: Seq<Rgb>, c: Rgb, limit: int, k: int)
    requires
        0 < limit,
        0 <= k < s.len(),
        s[k] == c,
        forall|j: int| 0 <= j < k ==> s[j] != c,
    ensures
        palette_after_use(s, c, limit).len() == if s.len() < limit { s.len() as int } else { limit },
        palette_after_use(s, c, limit)[0] == c,
        forall|i: int|
            1 <= i < palette_after_use(s, c, limit).len() ==> #[trigger] palette_after_use(
                s,
                c,
                limit,
            )[i] == if i <= k {
                s[i - 1]
            } else {
                s[i]
            },
{
    lemma_remove_first_at(s, c, k);
    let m = moved_to_front(s, c);
    lemma_truncated(m, limit);
    assert forall|i: int| 1 <= i < m.len() implies #[trigger] m[i] == if i <= k {
        s[i - 1]
    } else {
        s[i]
    } by {
        assert(m[i] == s.remove_value(c)[i - 1]);
    }
}

/// Using a color that is not in the palette: it comes first, the others
/// move one place back, and the palette is cut to its limit.
pub proof fn lemma_palette_use_new_color(s: Seq<Rgb>, c: Rgb, limit: int)
    requires
        0 < limit,
        !s.contains(c),
    ensures
        palette_after_use(s, c, limit).len() == if s.len() + 1 < limit {
            s.len() + 1 as int
        } else {
            limit
        },
        palette_after_use(s, c, limit)[0] == c,
        forall|i: int|
            1 <= i < palette_after_use(s, c, limit).len() ==> #[trigger] palette_after_use(
                s,
                c,
                limit,
            )[i] == s[i - 1],
{
    lemma_remove_value(s, c);
    let m = moved_to_front(s, c);
    lemma_truncated(m, limit);
}

/// Toggling off a favorite first found at `k` removes just that entry: the
/// favorites before it stay in place, and those after it move one place up.
pub proof fn lemma_toggle_off_keeps_order(f: Seq<Rgb>, c: Rgb, k: int)
    requires
        0 <= k < f.len(),
        f[k] == c,
        forall|j: int| 0 <= j < k ==> f[j] != c,
    ensures
        favorites_after_toggle(f, c).len() == f.len() - 1,
        forall|i: int|
            0 <= i < f.len() - 1 ==> #[trigger] favorites_after_toggle(f, c)[i] == if i < k {
                f[i]
            } else {
                f[i + 1]
            },
        f.remove_value(c) == favorites_after_toggle(f, c),
{
    assert(f.contains(c));
    lemma_remove_first_at(f, c, k);
}

/// Toggling on a color that is not a favorite puts it first, moves the
/// others one place back, and keeps at most the favorites limit.
pub proof fn lemma_toggle_on_puts_first(f: Seq<Rgb>, c: Rgb)
    requires
        !f.contains(c),
    ensures
        favorites_after_toggle(f, c).len() == if f.len() + 1 < FAVORITES_LIMIT {
            f.len() + 1 as int
        } else {
            FAVORITES_LIMIT as int
        },
        favorites_after_toggle(f, c)[0] == c,
        forall|i: int|
            1 <= i < favorites_after_toggle(f, c).len() ==> #[trigger] favorites_after_toggle(
                f,
                c,
            )[i] == f[i - 1],
{
    lemma_truncated(seq![c] + f, FAVORITES_LIMIT as int);
}

/// Removing a favorite first found at `k` removes just that entry and keeps
/// the others in order.
pub proof fn lemma_remove_favorite_keeps_order(f: Seq<Rgb>, c: Rgb, k: int)
    requires
        0 <= k < f.len(),
        f[k] == c,
        forall|j: int| 0 <= j < k ==> f[j] != c,
    ensures
        f.remove_value(c).len() == f.len() - 1,
        forall|i: int|
            0 <= i < f.len() - 1 ==> #[trigger] f.remove_value(c)[i] == if i < k {
                f[i]
            } else {
                f[i + 1]
            },
{
    lemma_remove_first_at(f, c, k);
}

/// The palette limits that can be chosen are exactly those listed in
/// `PALETTE_LIMIT_OPTIONS`; a stored limit that is one of them is kept, and
/// any other gives way to the default, which is itself one of them.
pub proof fn lemma_palette_limit_options(n: usize)
    ensures
        is_palette_limit_option(n as int) <==> PALETTE_LIMIT_OPTIONS@.contains(n),
        PALETTE_LIMIT_OPTIONS@.contains(n) ==> effective_palette_limit(n) == n,
        !PALETTE_LIMIT_OPTIONS@.contains(n) ==> effective_palette_limit(n)
            == DEFAULT_PALETTE_LIMIT,
        PALETTE_LIMIT_OPTIONS@.contains(DEFAULT_PALETTE_LIMIT),
{
    let o = PALETTE_LIMIT_OPTIONS@;
    assert(o =~= seq![12usize, 18, 24, 36]);
    if is_palette_limit_option(n as int) {
        let i: int = if n == 12 { 0 } else if n == 18 { 1 } else if n == 24 { 2 } else { 3 };
        assert(o[i] == n);
    }
    assert(o[1] == DEFAULT_PALETTE_LIMIT);
}

/// Cutting keeps the first `n` colors, or all of them if there are fewer.
pub proof fn lemma_truncated_is_prefix(s: Seq<Rgb>, n: int)
    requires
        0 <= n,
    ensures
        truncated(s, n).len() == if s.len() < n { s.len() as int } else { n },
        forall|i: int| 0 <= i < truncated(s, n).len() ==> #[trigger] truncated(s, n)[i] == s[i],
{
    lemma_truncated(s, n);
}

} // verus!
