//! The XFCE adapter's logic: interpreting the configuration store's key
//! listing and assembling per-screen wallpaper records from the values read
//! back for each recognised key.
//!
//! The store lists hierarchical keys of the form
//! `/backdrop/screen<N>/monitor<M>[/workspace<W>]/<leaf>`. A key with two
//! segments after the prefix is a template for new workspaces (`active ==
//! false`); one with three segments belongs to a live monitor (`active ==
//! true`). Only the leaves `last_image` (wallpaper path) and `image_style`
//! (fill-mode code) are of interest; the store writes leaf names with
//! hyphens, so comparison normalises `-` to `_`. Anything else is skipped.

use vstd::prelude::*;

use crate::screen::{Mode, Screen, ScreenSpec, WallpaperError};
use crate::text::{eq_normalized, find_first, has_prefix, norm_key, str_eq};

verus! {

/// Which of the two recognised leaf names a key carries.
#[derive(Clone, Copy, Debug, PartialEq, Eq, Structural)]
pub enum XfceLeaf {
    /// `last_image`: the wallpaper's file path.
    LastImage,
    /// `image_style`: the fill mode's integer code.
    ImageStyle,
}

/// One recognised key of the listing: the full property path to read, and
/// what it tells us about which screen it configures.
#[derive(Clone, Debug)]
pub struct XfceKey {
    /// The whole key path, handed back to the configuration tool to read the
    /// key's value.
    pub property: String,
    /// The screen identity: `screen<N>/monitor<M>` for a live entry,
    /// `screen<N>` for a template.
    pub screen_name: String,
    pub leaf: XfceLeaf,
    pub active: bool,
}

/// The model of a recognised key.
pub ghost struct KeyInfo {
    pub screen: Seq<char>,
    pub leaf: XfceLeaf,
    pub active: bool,
}

impl View for XfceKey {
    type V = KeyInfo;

    open spec fn view(&self) -> KeyInfo {
        KeyInfo { screen: self.screen_name@, leaf: self.leaf, active: self.active }
    }
}

/// The leaf kind a key segment denotes, after normalising hyphens.
pub open spec fn spec_leaf_kind(s: Seq<char>) -> Option<XfceLeaf> {
    if norm_key(s) == "last_image"@ {
        Some(XfceLeaf::LastImage)
    } else if norm_key(s) == "image_style"@ {
        Some(XfceLeaf::ImageStyle)
    } else {
        None
    }
}

/// Classification of what follows the `/backdrop/` prefix: split on `/` into
/// two segments (a template entry) or three (a live entry), whose last
/// segment must be a recognised leaf; anything else is no key of interest.
pub open spec fn spec_classify_rest(rest: Seq<char>) -> Option<KeyInfo> {
    match rest.index_of_first('/') {
        None => None,
        Some(p1) => {
            let tail1 = rest.skip(p1 + 1);
            match tail1.index_of_first('/') {
                None => match spec_leaf_kind(tail1) {
                    None => None,
                    Some(k) => Some(KeyInfo { screen: rest.take(p1), leaf: k, active: false }),
                },
                Some(p2) => {
                    let tail2 = tail1.skip(p2 + 1);
                    match tail2.index_of_first('/') {
                        Some(_) => None,
                        None => match spec_leaf_kind(tail2) {
                            None => None,
                            Some(k) => Some(
                                KeyInfo { screen: rest.take(p1 + 1 + p2), leaf: k, active: true },
                            ),
                        },
                    }
                },
            }
        },
    }
}

/// Classification of one line of the key listing.
pub open spec fn spec_classify(line: Seq<char>) -> Option<KeyInfo> {
    let p = "/backdrop/"@;
    if p.len() <= line.len() && line.subrange(0, p.len() as int) == p {
        spec_classify_rest(line.skip(p.len() as int))
    } else {
        None
    }
}

/// The leaf kind of one key segment.
fn classify_leaf(s: &str) -> (r: Option<XfceLeaf>)
    ensures
        r == spec_leaf_kind(s@),
{
    if eq_normalized(s, "last_image") {
        Some(XfceLeaf::LastImage)
    } else if eq_normalized(s, "image_style") {
        Some(XfceLeaf::ImageStyle)
    } else {
        None
    }
}

/// Classifies one line of the configuration store's key listing; `None` for
/// a line that is no wallpaper key (which callers skip).
pub fn classify_line(line: &str) -> (r: Option<XfceKey>)
    ensures
        match r {
            None => spec_classify(line@) is None,
            Some(k) => spec_classify(line@) == Some(k@) && k.property@ == line@,
        },
{
    proof {
        reveal_strlit("/backdrop/");
    }
    if !has_prefix(line, "/backdrop/") {
        return None;
    }
    let n = line.unicode_len();
    let rest = line.substring_char(10, n);
    let rn = rest.unicode_len();
    match find_first(rest, '/') {
        None => None,
        Some(p1) => {
            let tail1 = rest.substring_char(p1 + 1, rn);
            match find_first(tail1, '/') {
                None => match classify_leaf(tail1) {
                    None => None,
                    Some(k) => {
                        let seg0 = rest.substring_char(0, p1);
                        Some(
                            XfceKey {
                                property: line.to_owned(),
                                screen_name: seg0.to_owned(),
                                leaf: k,
                                active: false,
                            },
                        )
                    },
                },
                Some(p2) => {
                    let t1n = tail1.unicode_len();
                    let tail2 = tail1.substring_char(p2 + 1, t1n);
                    match find_first(tail2, '/') {
                        Some(_) => None,
                        None => match classify_leaf(tail2) {
                            None => None,
                            Some(k) => {
                                let sname = rest.substring_char(0, p1 + 1 + p2);
                                Some(
                                    XfceKey {
                                        property: line.to_owned(),
                                        screen_name: sname.to_owned(),
                                        leaf: k,
                                        active: true,
                                    },
                                )
                            },
                        },
                    }
                },
            }
        },
    }
}

/// The keys of interest in a key listing, in order.
pub open spec fn spec_recognized(lines: Seq<Seq<char>>) -> Seq<KeyInfo> {
    lines.filter_map(|l: Seq<char>| spec_classify(l))
}

/// Scans a key listing and returns the recognised wallpaper keys, in order;
/// unrecognised lines are skipped. Each returned key carries the property
/// path whose classification it is.
pub fn recognized_keys(lines: &Vec<String>) -> (keys: Vec<XfceKey>)
    ensures
        keys@.map_values(|k: XfceKey| k@) == spec_recognized(
            lines@.map_values(|l: String| l@),
        ),
        forall|i: int|
            0 <= i < keys@.len() ==> spec_classify(#[trigger] keys@[i].property@) == Some(
                keys@[i]@,
            ),
{
    let ghost lseq = lines@.map_values(|l: String| l@);
    let ghost f = |l: Seq<char>| spec_classify(l);
    let mut keys: Vec<XfceKey> = Vec::new();
    let mut i: usize = 0;
    proof {
        assert(lseq.take(0).filter_map(f) =~= Seq::<KeyInfo>::empty());
    }
    while i < lines.len()
        invariant
            lseq == lines@.map_values(|l: String| l@),
            f == (|l: Seq<char>| spec_classify(l)),
            i <= lines@.len(),
            lseq.len() == lines@.len(),
            keys@.map_values(|k: XfceKey| k@) == lseq.take(i as int).filter_map(f),
            forall|j: int|
                0 <= j < keys@.len() ==> spec_classify(#[trigger] keys@[j].property@) == Some(
                    keys@[j]@,
                ),
        decreases lines@.len() - i,
    {
        proof {
            lseq.lemma_filter_map_take_succ(f, i as int);
            assert(lseq[i as int] == lines@[i as int]@);
        }
        let ghost prev = keys@.map_values(|k: XfceKey| k@);
        match classify_line(lines[i].as_str()) {
            None => {
                proof {
                    assert(lseq.take(i + 1).filter_map(f) =~= prev);
                }
            },
            Some(k) => {
                keys.push(k);
                proof {
                    assert(keys@.map_values(|k: XfceKey| k@) =~= lseq.take(i + 1).filter_map(f));
                }
            },
        }
        i = i + 1;
    }
    proof {
        assert(lseq.take(lseq.len() as int) =~= lseq);
    }
    keys
}

/// What an `image_style` value denotes: `Some(None)` for `"0"` (no image,
/// solid colour), `Some(Some(m))` for the codes `"1"` to `"5"`, and `None`
/// for a value XFCE does not define.
pub open spec fn spec_style_mode(v: Seq<char>) -> Option<Option<Mode>> {
    if v == "0"@ {
        Some(None)
    } else if v == "1"@ {
        Some(Some(Mode::Center))
    } else if v == "2"@ {
        Some(Some(Mode::Tile))
    } else if v == "3"@ {
        Some(Some(Mode::Stretch))
    } else if v == "4"@ {
        Some(Some(Mode::Fit))
    } else if v == "5"@ {
        Some(Some(Mode::Crop))
    } else {
        None
    }
}

/// Decodes an `image_style` value; an unrecognised value is the
/// `UnknownMode` error carrying that value.
pub fn mode_from_style(value: &str) -> (r: Result<Option<Mode>, WallpaperError>)
    ensures
        spec_style_mode(value@) is Some ==> (r matches Ok(m) && Some(m) == spec_style_mode(
            value@,
        )),
        spec_style_mode(value@) is None ==> (r matches Err(e) && (e matches
            WallpaperError::UnknownMode(u) && u@ == value@)),
{
    if str_eq(value, "0") {
        Ok(None)
    } else if str_eq(value, "1") {
        Ok(Some(Mode::Center))
    } else if str_eq(value, "2") {
        Ok(Some(Mode::Tile))
    } else if str_eq(value, "3") {
        Ok(Some(Mode::Stretch))
    } else if str_eq(value, "4") {
        Ok(Some(Mode::Fit))
    } else if str_eq(value, "5") {
        Ok(Some(Mode::Crop))
    } else {
        Err(WallpaperError::UnknownMode(value.to_owned()))
    }
}

/// Law: the textual `image_style` decoding agrees with the integer code
/// table, digit by digit.
pub proof fn lemma_style_mode_matches_codes(c: int)
    requires
        0 <= c <= 9,
    ensures
        spec_style_mode(crate::text::spec_dec(c)) == crate::screen::spec_xfce_mode_of_code(c),
{
    reveal_strlit("0");
    reveal_strlit("1");
    reveal_strlit("2");
    reveal_strlit("3");
    reveal_strlit("4");
    reveal_strlit("5");
    let v = crate::text::spec_dec(c);
    assert(v =~= seq![crate::text::dec_digit(c)]);
    assert(v.len() == 1 && v[0] == crate::text::dec_digit(c));
    assert("0"@.len() == 1 && "0"@[0] == '0');
    assert("1"@.len() == 1 && "1"@[0] == '1');
    assert("2"@.len() == 1 && "2"@[0] == '2');
    assert("3"@.len() == 1 && "3"@[0] == '3');
    assert("4"@.len() == 1 && "4"@[0] == '4');
    assert("5"@.len() == 1 && "5"@[0] == '5');
    if c == 0 {
        assert(v =~= "0"@);
    } else if c == 1 {
        assert(v =~= "1"@);
    } else if c == 2 {
        assert(v =~= "2"@);
    } else if c == 3 {
        assert(v =~= "3"@);
    } else if c == 4 {
        assert(v =~= "4"@);
    } else if c == 5 {
        assert(v =~= "5"@);
    }
}

/// The index of the screen named `name`, if one is there.
pub open spec fn spec_find_screen(screens: Seq<ScreenSpec>, name: Seq<char>) -> Option<int> {
    if exists|i: int| 0 <= i < screens.len() && screens[i].name == name {
        Some(choose|i: int| 0 <= i < screens.len() && screens[i].name == name)
    } else {
        None
    }
}

/// No two accumulated screens share a name.
pub open spec fn distinct_names(screens: Seq<ScreenSpec>) -> bool {
    forall|i: int, j: int| 0 <= i < j < screens.len() ==> screens[i].name != screens[j].name
}

/// One key's value folded into one screen record: `last_image` fills the
/// wallpaper, `image_style` the mode; an undefined style code is the error,
/// carrying the offending value.
pub open spec fn spec_upd_screen(s: ScreenSpec, leaf: XfceLeaf, value: Seq<char>) -> Result<
    ScreenSpec,
    Seq<char>,
> {
    match leaf {
        XfceLeaf::LastImage => Ok(ScreenSpec { wallpaper: Some(value), ..s }),
        XfceLeaf::ImageStyle => match spec_style_mode(value) {
            Some(m) => Ok(ScreenSpec { mode: m, ..s }),
            None => Err(value),
        },
    }
}

/// One key's value folded into the accumulated screens: an already-seen
/// screen identity is updated in place, a new one is appended with the
/// key's `active` flag and both optional fields empty.
pub open spec fn spec_apply(screens: Seq<ScreenSpec>, key: KeyInfo, value: Seq<char>) -> Result<
    Seq<ScreenSpec>,
    Seq<char>,
> {
    match spec_find_screen(screens, key.screen) {
        Some(i) => match spec_upd_screen(screens[i], key.leaf, value) {
            Ok(s) => Ok(screens.update(i, s)),
            Err(v) => Err(v),
        },
        None => {
            let fresh = ScreenSpec {
                name: key.screen,
                wallpaper: None,
                mode: None,
                active: key.active,
            };
            match spec_upd_screen(fresh, key.leaf, value) {
                Ok(s) => Ok(screens.push(s)),
                Err(v) => Err(v),
            }
        },
    }
}

/// The whole accumulation: the recognised keys' values folded into screen
/// records, left to right, stopping at the first undefined style value.
pub open spec fn spec_build(
    keys: Seq<KeyInfo>,
    values: Seq<Seq<char>>,
    acc: Seq<ScreenSpec>,
) -> Result<Seq<ScreenSpec>, Seq<char>>
    decreases keys.len(),
{
    if keys.len() == 0 {
        Ok(acc)
    } else {
        match spec_apply(acc, keys[0], values[0]) {
            Ok(acc2) => spec_build(keys.skip(1), values.skip(1), acc2),
            Err(v) => Err(v),
        }
    }
}

proof fn lemma_apply_distinct(screens: Seq<ScreenSpec>, key: KeyInfo, value: Seq<char>)
    requires
        distinct_names(screens),
        spec_apply(screens, key, value) is Ok,
    ensures
        distinct_names(spec_apply(screens, key, value)->Ok_0),
{
    match spec_find_screen(screens, key.screen) {
        Some(i) => {
            let s2 = spec_upd_screen(screens[i], key.leaf, value)->Ok_0;
            assert(s2.name == screens[i].name);
        },
        None => {
            assert(forall|i: int|
                0 <= i < screens.len() ==> screens[i].name != key.screen);
        },
    }
}

proof fn lemma_build_step(
    keys: Seq<KeyInfo>,
    values: Seq<Seq<char>>,
    acc: Seq<ScreenSpec>,
    i: int,
)
    requires
        0 <= i < keys.len(),
        keys.len() == values.len(),
    ensures
        spec_build(keys.skip(i), values.skip(i), acc) == (match spec_apply(
            acc,
            keys[i],
            values[i],
        ) {
            Ok(a2) => spec_build(keys.skip(i + 1), values.skip(i + 1), a2),
            Err(v) => Err(v),
        }),
{
    assert(keys.skip(i)[0] == keys[i]);
    assert(values.skip(i)[0] == values[i]);
    assert(keys.skip(i).skip(1) =~= keys.skip(i + 1));
    assert(values.skip(i).skip(1) =~= values.skip(i + 1));
}

/// The first index holding a screen named `name`.
fn find_screen_idx(screens: &Vec<Screen>, name: &str) -> (r: Option<usize>)
    ensures
        match r {
            Some(i) => i < screens@.len() && screens@[i as int]@.name == name@ && forall|j: int|
                0 <= j < i ==> screens@[j]@.name != name@,
            None => forall|j: int| 0 <= j < screens@.len() ==> screens@[j]@.name != name@,
        },
{
    let n = screens.len();
    let mut i: usize = 0;
    while i < n
        invariant
            n == screens@.len(),
            i <= n,
            forall|j: int| 0 <= j < i ==> screens@[j]@.name != name@,
        decreases n - i,
    {
        if str_eq(screens[i].name.as_str(), name) {
            return Some(i);
        }
        i = i + 1;
    }
    None
}

/// Assembles the screens of a key listing from the values read for each
/// recognised key: `values[i]` must be the configuration store's value of
/// `keys[i].property`. Returns the accumulated records, or the
/// `UnknownMode` error for the first `image_style` value XFCE does not
/// define.
pub fn get_screens(keys: &Vec<XfceKey>, values: &Vec<String>) -> (r: Result<
    Vec<Screen>,
    WallpaperError,
>)
    requires
        keys@.len() == values@.len(),
    ensures
        match spec_build(
            keys@.map_values(|k: XfceKey| k@),
            values@.map_values(|v: String| v@),
            Seq::empty(),
        ) {
            Ok(ss) => r matches Ok(v) && v@.map_values(|s: Screen| s@) == ss,
            Err(bad) => r matches Err(e) && (e matches WallpaperError::UnknownMode(u) && u@
                == bad),
        },
{
    let ghost kseq = keys@.map_values(|k: XfceKey| k@);
    let ghost vseq = values@.map_values(|v: String| v@);
    let mut screens: Vec<Screen> = Vec::new();
    let mut idx: usize = 0;
    proof {
        assert(kseq.skip(0) =~= kseq);
        assert(vseq.skip(0) =~= vseq);
        assert(screens@.map_values(|s: Screen| s@) =~= Seq::<ScreenSpec>::empty());
    }
    while idx < keys.len()
        invariant
            keys@.len() == values@.len(),
            kseq == keys@.map_values(|k: XfceKey| k@),
            vseq == values@.map_values(|v: String| v@),
            kseq.len() == keys@.len(),
            vseq.len() == values@.len(),
            idx <= keys@.len(),
            distinct_names(screens@.map_values(|s: Screen| s@)),
            spec_build(kseq, vseq, Seq::empty()) == spec_build(
                kseq.skip(idx as int),
                vseq.skip(idx as int),
                screens@.map_values(|s: Screen| s@),
            ),
        decreases keys@.len() - idx,
    {
        let ghost acc = screens@.map_values(|s: Screen| s@);
        proof {
            lemma_build_step(kseq, vseq, acc, idx as int);
            assert(kseq[idx as int] == keys@[idx as int]@);
            assert(vseq[idx as int] == values@[idx as int]@);
        }
        let key = &keys[idx];
        let value = &values[idx];
        match find_screen_idx(&screens, key.screen_name.as_str()) {
            Some(pos) => {
                proof {
                    let w = choose|i: int|
                        0 <= i < acc.len() && acc[i].name == key@.screen;
                    assert(acc[pos as int].name == key@.screen);
                    assert(w == pos as int);
                    assert(spec_find_screen(acc, key@.screen) == Some(pos as int));
                }
                match key.leaf {
                    XfceLeaf::LastImage => {
                        screens[pos].wallpaper = Some(value.clone());
                        proof {
                            assert(screens@.map_values(|s: Screen| s@) =~= acc.update(
                                pos as int,
                                spec_upd_screen(acc[pos as int], key@.leaf, vseq[idx as int])->Ok_0,
                            ));
                        }
                    },
                    XfceLeaf::ImageStyle => match mode_from_style(value.as_str()) {
                        Ok(m) => {
                            screens[pos].mode = m;
                            proof {
                                assert(screens@.map_values(|s: Screen| s@) =~= acc.update(
                                    pos as int,
                                    spec_upd_screen(
                                        acc[pos as int],
                                        key@.leaf,
                                        vseq[idx as int],
                                    )->Ok_0,
                                ));
                            }
                        },
                        Err(e) => {
                            proof {
                                assert(spec_build(kseq, vseq, Seq::empty()) == Err::<
                                    Seq<ScreenSpec>,
                                    Seq<char>,
                                >(vseq[idx as int]));
                            }
                            return Err(e);
                        },
                    },
                }
                proof {
                    lemma_apply_distinct(acc, key@, vseq[idx as int]);
                }
            },
            None => {
                proof {
                    assert(spec_find_screen(acc, key@.screen) is None);
                }
                let mut fresh = Screen {
                    name: key.screen_name.clone(),
                    wallpaper: None,
                    mode: None,
                    active: key.active,
                };
                match key.leaf {
                    XfceLeaf::LastImage => {
                        fresh.wallpaper = Some(value.clone());
                        screens.push(fresh);
                        proof {
                            let ghost f = ScreenSpec {
                                name: key@.screen,
                                wallpaper: None,
                                mode: None,
                                active: key@.active,
                            };
                            assert(screens@.map_values(|s: Screen| s@) =~= acc.push(
                                spec_upd_screen(f, key@.leaf, vseq[idx as int])->Ok_0,
                            ));
                        }
                    },
                    XfceLeaf::ImageStyle => match mode_from_style(value.as_str()) {
                        Ok(m) => {
                            fresh.mode = m;
                            screens.push(fresh);
                            proof {
                                let ghost f = ScreenSpec {
                                    name: key@.screen,
                                    wallpaper: None,
                                    mode: None,
                                    active: key@.active,
                                };
                                assert(screens@.map_values(|s: Screen| s@) =~= acc.push(
                                    spec_upd_screen(f, key@.leaf, vseq[idx as int])->Ok_0,
                                ));
                            }
                        },
                        Err(e) => {
                            proof {
                                assert(spec_build(kseq, vseq, Seq::empty()) == Err::<
                                    Seq<ScreenSpec>,
                                    Seq<char>,
                                >(vseq[idx as int]));
                            }
                            return Err(e);
                        },
                    },
                }
                proof {
                    lemma_apply_distinct(acc, key@, vseq[idx as int]);
                }
            },
        }
        idx = idx + 1;
    }
    proof {
        assert(kseq.skip(kseq.len() as int) =~= Seq::<KeyInfo>::empty());
        assert(vseq.skip(vseq.len() as int) =~= Seq::<Seq<char>>::empty());
    }
    Ok(screens)
}

} // verus!

