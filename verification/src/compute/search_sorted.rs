//! Binary search over anything sorted that can be compared by position.

use vstd::prelude::*;

verus! {

/// On which side of a run of equal values the search lands.
#[derive(Clone, Copy, Debug, PartialEq, Eq, Structural, Hash)]
pub enum SearchSortedSide {
    Left,
    Right,
}

/// Where a value is, or where it would be inserted.
#[derive(Clone, Copy, Debug, PartialEq, Eq, Structural, Hash)]
pub enum SearchResult {
    Found(usize),
    NotFound(usize),
}

/// How the key at a position stands to the value searched for.
#[derive(Clone, Copy, Debug, PartialEq, Eq, Structural, Hash)]
pub enum Order {
    Less,
    Equal,
    Greater,
}

impl SearchResult {
    pub open spec fn spec_to_index(self) -> usize {
        match self {
            SearchResult::Found(i) => i,
            SearchResult::NotFound(i) => i,
        }
    }

    /// The position, found or not.
    #[verifier::when_used_as_spec(spec_to_index)]
    pub fn to_index(self) -> (r: usize)
        ensures r == self.spec_to_index(),
    {
        match self {
            SearchResult::Found(i) => i,
            SearchResult::NotFound(i) => i,
        }
    }

    /// The position where the value was found.
    pub fn to_found(self) -> (r: Option<usize>)
        ensures r == (match self {
            SearchResult::Found(i) => Some(i),
            SearchResult::NotFound(_) => None::<usize>,
        }),
    {
        match self {
            SearchResult::Found(i) => Some(i),
            SearchResult::NotFound(_) => None,
        }
    }

    /// The position as an index into a sequence of `len` ends: the last one where the search
    /// ran off the end.
    pub fn to_ends_index(self, len: usize) -> (r: usize)
        requires len > 0,
        ensures r == (if self.spec_to_index() == len {
            (len - 1) as usize
        } else {
            self.spec_to_index()
        }),
    {
        let idx = self.to_index();
        if idx == len {
            idx - 1
        } else {
            idx
        }
    }
}

/// How a key stands to a value. A missing key is a null, and nulls are greatest.
pub open spec fn key_order(key: Option<int>, value: int) -> Order {
    match key {
        None => Order::Greater,
        Some(k) => if k < value {
            Order::Less
        } else if k == value {
            Order::Equal
        } else {
            Order::Greater
        },
    }
}

/// Whether `a` may stand before `b` in sorted order.
pub open spec fn key_le(a: Option<int>, b: Option<int>) -> bool {
    match (a, b) {
        (_, None) => true,
        (None, Some(_)) => false,
        (Some(x), Some(y)) => x <= y,
    }
}

/// Whether keys are in sorted order, nulls last.
pub open spec fn keys_sorted(keys: Seq<Option<int>>) -> bool {
    forall|i: int, j: int| 0 <= i <= j < keys.len() ==> key_le(#[trigger] keys[i], #[trigger] keys[j])
}

/// What a search on `side` must return on sorted keys: the position that parts the keys
/// before the value from those after it, and whether the value occurs.
pub open spec fn is_search_result(
    keys: Seq<Option<int>>,
    value: int,
    side: SearchSortedSide,
    result: SearchResult,
) -> bool {
    let i = result.spec_to_index() as int;
    &&& 0 <= i <= keys.len()
    &&& match side {
        SearchSortedSide::Left => {
            &&& forall|j: int| 0 <= j < i ==> key_order(#[trigger] keys[j], value) == Order::Less
            &&& forall|j: int| i <= j < keys.len() ==> key_order(#[trigger] keys[j], value) != Order::Less
            &&& result is Found <==> i < keys.len() && keys[i] == Some(value)
        },
        SearchSortedSide::Right => {
            &&& forall|j: int| 0 <= j < i ==> key_order(#[trigger] keys[j], value) != Order::Greater
            &&& forall|j: int| i <= j < keys.len() ==> key_order(#[trigger] keys[j], value) == Order::Greater
            &&& result is Found <==> i > 0 && keys[i - 1] == Some(value)
        },
    }
}

/// A sequence whose keys can be compared with a value, position by position.
pub trait IndexOrd {
    /// The keys, `None` for a null.
    spec fn keys(&self) -> Seq<Option<int>>;

    /// What the sequence must satisfy for its methods to be called.
    spec fn searchable(&self) -> bool;

    fn len(&self) -> (r: usize)
        requires self.searchable(),
        ensures r == self.keys().len(),
    ;

    /// How the key at `idx` stands to `elem`.
    fn index_order(&self, idx: usize, elem: u64) -> (r: Order)
        requires
            self.searchable(),
            idx < self.keys().len(),
        ensures
            r == key_order(self.keys()[idx as int], elem as int),
    ;
}

/// The keys of unsigned values.
pub open spec fn u64_keys(values: Seq<u64>) -> Seq<Option<int>> {
    Seq::new(values.len(), |i: int| Some(values[i] as int))
}

/// The keys of positions.
pub open spec fn usize_keys(values: Seq<usize>) -> Seq<Option<int>> {
    Seq::new(values.len(), |i: int| Some(values[i] as int))
}

impl IndexOrd for Vec<u64> {
    open spec fn keys(&self) -> Seq<Option<int>> {
        u64_keys(self@)
    }

    open spec fn searchable(&self) -> bool {
        true
    }

    fn len(&self) -> (r: usize) {
        Vec::len(self)
    }

    fn index_order(&self, idx: usize, elem: u64) -> (r: Order) {
        let v = self[idx];
        if v < elem {
            Order::Less
        } else if v == elem {
            Order::Equal
        } else {
            Order::Greater
        }
    }
}

impl IndexOrd for Vec<usize> {
    open spec fn keys(&self) -> Seq<Option<int>> {
        usize_keys(self@)
    }

    open spec fn searchable(&self) -> bool {
        true
    }

    fn len(&self) -> (r: usize) {
        Vec::len(self)
    }

    fn index_order(&self, idx: usize, elem: u64) -> (r: Order) {
        let v = self[idx] as u64;
        if v < elem {
            Order::Less
        } else if v == elem {
            Order::Equal
        } else {
            Order::Greater
        }
    }
}

/// Searches sorted keys for `value`. With `Left` the result is the first position whose key
/// is not less than the value; with `Right` the first whose key is greater. The value is
/// `Found` when it occurs: at the position itself for `Left`, just before it for `Right`.
pub fn search_sorted<S: IndexOrd>(s: &S, value: u64, side: SearchSortedSide) -> (r: SearchResult)
    requires
        s.searchable(),
        keys_sorted(s.keys()),
    ensures
        is_search_result(s.keys(), value as int, side, r),
{
    let n = s.len();
    let ghost keys = s.keys();
    let mut lo: usize = 0;
    let mut hi: usize = n;
    while lo < hi
        invariant
            s.searchable(),
            keys == s.keys(),
            keys_sorted(keys),
            n == keys.len(),
            lo <= hi <= n,
            side == SearchSortedSide::Left ==> forall|j: int| 0 <= j < lo ==> key_order(#[trigger] keys[j], value as int) == Order::Less,
            side == SearchSortedSide::Left ==> forall|j: int| hi <= j < n ==> key_order(#[trigger] keys[j], value as int) != Order::Less,
            side == SearchSortedSide::Right ==> forall|j: int| 0 <= j < lo ==> key_order(#[trigger] keys[j], value as int) != Order::Greater,
            side == SearchSortedSide::Right ==> forall|j: int| hi <= j < n ==> key_order(#[trigger] keys[j], value as int) == Order::Greater,
        decreases hi - lo,
    {
        let mid = lo + (hi - lo) / 2;
        let c = s.index_order(mid, value);
        let go_right = match side {
            SearchSortedSide::Left => c == Order::Less,
            SearchSortedSide::Right => c != Order::Greater,
        };
        proof {
            if go_right {
                assert forall|j: int| 0 <= j < mid + 1 implies (side == SearchSortedSide::Left ==> key_order(#[trigger] keys[j], value as int) == Order::Less) && (side == SearchSortedSide::Right ==> key_order(keys[j], value as int) != Order::Greater) by {
                    assert(key_le(keys[j], keys[mid as int]));
                }
            } else {
                assert forall|j: int| mid <= j < n implies (side == SearchSortedSide::Left ==> key_order(#[trigger] keys[j], value as int) != Order::Less) && (side == SearchSortedSide::Right ==> key_order(keys[j], value as int) == Order::Greater) by {
                    assert(key_le(keys[mid as int], keys[j]));
                }
            }
        }
        if go_right {
            lo = mid + 1;
        } else {
            hi = mid;
        }
    }
    match side {
        SearchSortedSide::Left => {
            if lo < n {
                let c = s.index_order(lo, value);
                if c == Order::Equal {
                    return SearchResult::Found(lo);
                }
            }
            SearchResult::NotFound(lo)
        },
        SearchSortedSide::Right => {
            if lo > 0 {
                let c = s.index_order(lo - 1, value);
                if c == Order::Equal {
                    return SearchResult::Found(lo);
                }
            }
            SearchResult::NotFound(lo)
        },
    }
}

/// A search has one result: the position that parts the keys, and whether the value
/// occurs, are determined by the keys, the value and the side.
pub proof fn law_search_result_unique(
    keys: Seq<Option<int>>,
    value: int,
    side: SearchSortedSide,
    a: SearchResult,
    b: SearchResult,
)
    requires
        is_search_result(keys, value, side, a),
        is_search_result(keys, value, side, b),
    ensures
        a == b,
{
    let i = a.spec_to_index() as int;
    let j = b.spec_to_index() as int;
    if i < j {
        assert(key_order(keys[i], value) == key_order(keys[i], value));
    } else if j < i {
        assert(key_order(keys[j], value) == key_order(keys[j], value));
    }
}

} // verus!
