//! The lookup table that binds text layers to per-image values, and the
//! choice of a font size that fits a box.

use vstd::prelude::*;

verus! {

/// Whether two strings hold the same characters.
pub fn same_text(a: &str, b: &str) -> (r: bool)
    ensures
        r == (a@ == b@),
{
    let n = a.unicode_len();
    if n != b.unicode_len() {
        return false;
    }
    let mut i: usize = 0;
    while i < n
        invariant
            n == a@.len(),
            n == b@.len(),
            i <= n,
            forall|k: int| 0 <= k < i ==> a@[k] == b@[k],
        decreases n - i,
    {
        if a.get_char(i) != b.get_char(i) {
            return false;
        }
        i = i + 1;
    }
    assert(a@ =~= b@);
    true
}

/// The value bound to `(path, key)`: the one recorded last.
pub open spec fn lookup(
    entries: Seq<(Seq<char>, Seq<char>, Seq<char>)>,
    path: Seq<char>,
    key: Seq<char>,
) -> Option<Seq<char>>
    decreases entries.len(),
{
    if entries.len() == 0 {
        None
    } else {
        let e = entries.last();
        if e.0 == path && e.1 == key {
            Some(e.2)
        } else {
            lookup(entries.drop_last(), path, key)
        }
    }
}

/// Per-image values for text layers: image path → column key → text. Paths
/// and keys match by exact equality.
pub struct DataTable {
    entries: Vec<(String, String, String)>,
}

impl View for DataTable {
    type V = Seq<(Seq<char>, Seq<char>, Seq<char>)>;

    closed spec fn view(&self) -> Self::V {
        self.entries@.map_values(|e: (String, String, String)| (e.0@, e.1@, e.2@))
    }
}

impl DataTable {
    pub fn new() -> (t: DataTable)
        ensures
            t@ == Seq::<(Seq<char>, Seq<char>, Seq<char>)>::empty(),
    {
        let t = DataTable { entries: Vec::new() };
        assert(t@ =~= Seq::<(Seq<char>, Seq<char>, Seq<char>)>::empty());
        t
    }

    /// Binds `value` to `key` in the row of `path`, replacing an earlier value.
    pub fn insert(&mut self, path: String, key: String, value: String)
        ensures
            final(self)@ == old(self)@.push((path@, key@, value@)),
    {
        let ghost e = (path@, key@, value@);
        self.entries.push((path, key, value));
        assert(self@ =~= old(self)@.push(e));
    }

    /// The value bound to `key` in the row of `path`, if any.
    pub fn get(&self, path: &str, key: &str) -> (r: Option<String>)
        ensures
            match r {
                Some(v) => lookup(self@, path@, key@) == Some(v@),
                None => lookup(self@, path@, key@) is None,
            },
    {
        let mut i: usize = self.entries.len();
        assert(self@.subrange(0, i as int) =~= self@);
        while i > 0
            invariant
                i <= self.entries@.len(),
                self@.len() == self.entries@.len(),
                lookup(self@, path@, key@) == lookup(self@.subrange(0, i as int), path@, key@),
            decreases i,
        {
            let e = &self.entries[i - 1];
            let ghost s = self@.subrange(0, i as int);
            assert(s.last() == self@[i - 1]);
            assert(s.drop_last() =~= self@.subrange(0, i - 1));
            if same_text(e.0.as_str(), path) && same_text(e.1.as_str(), key) {
                return Some(e.2.clone());
            }
            i = i - 1;
        }
        assert(self@.subrange(0, 0) =~= Seq::<(Seq<char>, Seq<char>, Seq<char>)>::empty());
        None
    }
}

/// The text a text layer shows: the table's value for the image and the
/// layer's key, else the layer's own content, else nothing.
pub open spec fn displayed_text(
    table: Seq<(Seq<char>, Seq<char>, Seq<char>)>,
    image_path: Seq<char>,
    key: Option<Seq<char>>,
    content: Option<Seq<char>>,
) -> Seq<char> {
    let bound = match key {
        Some(k) => lookup(table, image_path, k),
        None => None,
    };
    match bound {
        Some(v) => v,
        None => match content {
            Some(c) => c,
            None => Seq::empty(),
        },
    }
}

/// See [`displayed_text`].
pub fn resolve_text(table: &DataTable, image_path: &str, key: &Option<String>, content: &Option<
    String,
>) -> (r: String)
    ensures
        r@ == displayed_text(
            table@,
            image_path@,
            match key {
                Some(k) => Some(k@),
                None => None,
            },
            match content {
                Some(c) => Some(c@),
                None => None,
            },
        ),
{
    let bound = match key {
        Some(k) => table.get(image_path, k.as_str()),
        None => None,
    };
    match bound {
        Some(v) => v,
        None => match content {
            Some(c) => c.clone(),
            None => String::new(),
        },
    }
}

/// Number of sizes that fitting tries: every size from `max_size` down to
/// `min_size + 1`; `min_size` itself is the fallback and is never measured.
pub open spec fn sizes_tried(max_size: nat, min_size: nat) -> nat {
    if max_size > min_size {
        (max_size - min_size) as nat
    } else {
        0
    }
}

/// Index of the first width, from `i` on, that is at most `box_width`.
pub open spec fn first_fit(widths: Seq<u64>, box_width: nat, i: nat) -> Option<nat>
    decreases widths.len() - i,
{
    if i >= widths.len() {
        None
    } else if widths[i as int] <= box_width {
        Some(i)
    } else {
        first_fit(widths, box_width, i + 1)
    }
}

/// The font size chosen for a text, where `widths[i]` is its measured width
/// (rounded up to a whole pixel) at size `max_size - i`: the largest size whose
/// width is at most `box_width`, or `min_size` if none is.
pub open spec fn fitted_size(widths: Seq<u64>, max_size: nat, min_size: nat, box_width: nat) -> nat {
    match first_fit(widths, box_width, 0) {
        Some(i) => (max_size - i) as nat,
        None => min_size,
    }
}

proof fn lemma_first_fit_bounds(widths: Seq<u64>, box_width: nat, i: nat)
    ensures
        first_fit(widths, box_width, i) matches Some(k) ==> i <= k < widths.len() && widths[k as int]
            <= box_width,
    decreases widths.len() - i,
{
    if i < widths.len() && widths[i as int] > box_width {
        lemma_first_fit_bounds(widths, box_width, i + 1);
    }
}

/// Picks the font size for a text box (see [`fitted_size`]). The result lies
/// between `min_size` and `max_size` when those are in order, and is
/// `max_size` itself when the text fits at that size.
pub fn fit_font_size(widths: &Vec<u64>, max_size: u32, min_size: u32, box_width: u32) -> (r: u32)
    requires
        widths@.len() == sizes_tried(max_size as nat, min_size as nat),
    ensures
        r == fitted_size(widths@, max_size as nat, min_size as nat, box_width as nat),
        min_size <= max_size ==> min_size <= r <= max_size,
        max_size > min_size && widths@[0] <= box_width ==> r == max_size,
{
    let n = widths.len();
    let mut i: usize = 0;
    while i < n
        invariant
            n == widths@.len(),
            i <= n,
            n == sizes_tried(max_size as nat, min_size as nat),
            first_fit(widths@, box_width as nat, 0) == first_fit(widths@, box_width as nat, i as nat),
        decreases n - i,
    {
        if widths[i] <= box_width as u64 {
            proof {
                lemma_first_fit_bounds(widths@, box_width as nat, 0);
            }
            return max_size - i as u32;
        }
        i = i + 1;
    }
    proof {
        lemma_first_fit_bounds(widths@, box_width as nat, 0);
    }
    min_size
}

} // verus!
