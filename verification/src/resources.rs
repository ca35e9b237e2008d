//! The closed set of resource kinds and the fixed-size counter over them
//! that models coins, card costs and player holdings.

use vstd::prelude::*;

verus! {

/// The five gem colors used as currency and card production.  Wild coins are
/// not a kind of their own; they are tracked by separate counters.
#[derive(Debug, Clone, Copy, PartialEq, Eq, Hash, Structural)]
pub enum ResourceKind {
    Red,
    Blue,
    Green,
    White,
    Black,
}

impl ResourceKind {
    /// Whether `c` is one of the five letters of the cost mini-language.
    pub open spec fn is_code_char(c: char) -> bool {
        c == 'g' || c == 'r' || c == 'w' || c == 'k' || c == 'u'
    }

    /// The kind a mini-language letter stands for.
    pub open spec fn kind_of_char(c: char) -> ResourceKind {
        if c == 'g' {
            ResourceKind::Green
        } else if c == 'r' {
            ResourceKind::Red
        } else if c == 'w' {
            ResourceKind::White
        } else if c == 'k' {
            ResourceKind::Black
        } else {
            ResourceKind::Blue
        }
    }

    /// Decodes a one-letter resource code (`g`, `r`, `w`, `k` or `u`).
    pub fn from_code(code: &str) -> (r: Self)
        requires
            code@.len() == 1,
            Self::is_code_char(code@[0]),
        ensures
            r == Self::kind_of_char(code@[0]),
    {
        let c = code.get_char(0);
        if c == 'g' {
            ResourceKind::Green
        } else if c == 'r' {
            ResourceKind::Red
        } else if c == 'w' {
            ResourceKind::White
        } else if c == 'k' {
            ResourceKind::Black
        } else {
            ResourceKind::Blue
        }
    }
}

/// A count per resource kind.  Every kind always has a slot; zero is an
/// explicit value, not absence, and counts are unsigned so no entry can
/// ever be negative.
#[derive(Debug, Clone, Copy, PartialEq, Eq, Structural)]
pub struct ResourceMap {
    pub red: usize,
    pub blue: usize,
    pub green: usize,
    pub white: usize,
    pub black: usize,
}

impl ResourceMap {
    /// The count stored for kind `k`.
    pub open spec fn cnt(self, k: ResourceKind) -> int {
        match k {
            ResourceKind::Red => self.red as int,
            ResourceKind::Blue => self.blue as int,
            ResourceKind::Green => self.green as int,
            ResourceKind::White => self.white as int,
            ResourceKind::Black => self.black as int,
        }
    }

    /// The map with kind `k` set to `v` and every other kind unchanged.
    pub open spec fn spec_set(self, k: ResourceKind, v: int) -> ResourceMap {
        match k {
            ResourceKind::Red => ResourceMap { red: v as usize, ..self },
            ResourceKind::Blue => ResourceMap { blue: v as usize, ..self },
            ResourceKind::Green => ResourceMap { green: v as usize, ..self },
            ResourceKind::White => ResourceMap { white: v as usize, ..self },
            ResourceKind::Black => ResourceMap { black: v as usize, ..self },
        }
    }

    /// The map with kind `k` changed by `d` and every other kind unchanged.
    pub open spec fn spec_add(self, k: ResourceKind, d: int) -> ResourceMap {
        self.spec_set(k, self.cnt(k) + d)
    }

    /// Element-wise sum of two maps.
    pub open spec fn spec_plus(self, o: ResourceMap) -> ResourceMap {
        ResourceMap {
            red: (self.red + o.red) as usize,
            blue: (self.blue + o.blue) as usize,
            green: (self.green + o.green) as usize,
            white: (self.white + o.white) as usize,
            black: (self.black + o.black) as usize,
        }
    }

    /// How `spec_add` changes the counts, provided the new count fits the
    /// count type: only the named kind moves.
    pub proof fn lemma_spec_add_cnt(m: ResourceMap, k: ResourceKind, d: int)
        requires
            0 <= m.cnt(k) + d <= usize::MAX,
        ensures
            forall|j: ResourceKind| j != k ==> #[trigger] m.spec_add(k, d).cnt(j) == m.cnt(j),
            m.spec_add(k, d).cnt(k) == m.cnt(k) + d,
    {
    }

    /// The map with zero of every kind.
    pub open spec fn zero() -> ResourceMap {
        ResourceMap { red: 0, blue: 0, green: 0, white: 0, black: 0 }
    }

    /// Sum of the counts over all five kinds.
    pub open spec fn total(self) -> int {
        self.red + self.blue + self.green + self.white + self.black
    }

    /// A zero-initialized map.
    pub fn new() -> (r: Self)
        ensures
            r == Self::zero(),
    {
        ResourceMap { red: 0, blue: 0, green: 0, white: 0, black: 0 }
    }

    /// Reads the count of kind `k`.
    pub fn get(&self, k: ResourceKind) -> (v: usize)
        ensures
            v as int == self.cnt(k),
    {
        match k {
            ResourceKind::Red => self.red,
            ResourceKind::Blue => self.blue,
            ResourceKind::Green => self.green,
            ResourceKind::White => self.white,
            ResourceKind::Black => self.black,
        }
    }

    /// Overwrites the count of kind `k`.
    pub fn set(&mut self, k: ResourceKind, v: usize)
        ensures
            *final(self) == old(self).spec_set(k, v as int),
    {
        match k {
            ResourceKind::Red => self.red = v,
            ResourceKind::Blue => self.blue = v,
            ResourceKind::Green => self.green = v,
            ResourceKind::White => self.white = v,
            ResourceKind::Black => self.black = v,
        }
    }

    /// Element-wise addition, used to credit a purchased card's production.
    pub fn add(&mut self, adds: &ResourceMap)
        requires
            forall|k: ResourceKind| old(self).cnt(k) + adds.cnt(k) <= usize::MAX,
        ensures
            *final(self) == old(self).spec_plus(*adds),
            forall|k: ResourceKind| #[trigger] final(self).cnt(k) == old(self).cnt(k) + adds.cnt(k),
    {
        assert(old(self).cnt(ResourceKind::Red) + adds.cnt(ResourceKind::Red) <= usize::MAX);
        assert(old(self).cnt(ResourceKind::Blue) + adds.cnt(ResourceKind::Blue) <= usize::MAX);
        assert(old(self).cnt(ResourceKind::Green) + adds.cnt(ResourceKind::Green) <= usize::MAX);
        assert(old(self).cnt(ResourceKind::White) + adds.cnt(ResourceKind::White) <= usize::MAX);
        assert(old(self).cnt(ResourceKind::Black) + adds.cnt(ResourceKind::Black) <= usize::MAX);
        self.red = self.red + adds.red;
        self.blue = self.blue + adds.blue;
        self.green = self.green + adds.green;
        self.white = self.white + adds.white;
        self.black = self.black + adds.black;
    }

    /// Sum of all counts, as the signed type the heuristic computes with.
    pub fn sum(&self) -> (r: i32)
        requires
            self.total() <= i32::MAX,
        ensures
            r as int == self.total(),
    {
        let t = self.red + self.blue + self.green + self.white + self.black;
        t as i32
    }

    /// Whether `s` is a well-formed cost code: digit-letter segments
    /// joined by `+`, as in `3g` or `1w+2u+1g`.
    pub open spec fn valid_code(s: Seq<char>) -> bool
        decreases s.len(),
    {
        s.len() >= 2 && is_digit(s[0]) && ResourceKind::is_code_char(s[1]) && (s.len() == 2 || (
        s.len() >= 5 && s[2] == '+' && Self::valid_code(s.skip(3))))
    }

    /// Left fold of the segments of a code onto `m`: each segment
    /// overwrites the slot its letter names with its digit's value.
    pub open spec fn code_fold(m: ResourceMap, s: Seq<char>) -> ResourceMap
        decreases s.len(),
    {
        if s.len() < 2 {
            m
        } else {
            let m2 = m.spec_set(ResourceKind::kind_of_char(s[1]), digit_val(s[0]));
            if s.len() <= 3 {
                m2
            } else {
                Self::code_fold(m2, s.skip(3))
            }
        }
    }

    /// The map a cost code denotes, starting from all zeroes.
    pub open spec fn map_of_code(s: Seq<char>) -> ResourceMap {
        Self::code_fold(Self::zero(), s)
    }

    /// Parses a cost code such as `1w+2u+1g`.
    pub fn from_code(code: &str) -> (r: Self)
        requires
            Self::valid_code(code@),
        ensures
            r == Self::map_of_code(code@),
    {
        let n = code.unicode_len();
        let mut m = ResourceMap::new();
        let mut i: usize = 0;
        proof {
            assert(code@.skip(0) =~= code@);
        }
        while i < n
            invariant
                i <= n,
                n == code@.len(),
                i == n || Self::valid_code(code@.skip(i as int)),
                Self::code_fold(m, code@.skip(i as int)) == Self::map_of_code(code@),
            decreases n - i,
        {
            let ghost pre = code@.skip(i as int);
            let ghost m0 = m;
            let c0 = code.get_char(i);
            let c1 = code.get_char(i + 1);
            proof {
                assert(c0 == pre[0]);
                assert(c1 == pre[1]);
            }
            let v = digit_to_value(c0);
            m.set(ResourceKind::from_code_char(c1), v);
            if i + 2 >= n {
                proof {
                    assert(pre.len() == 2);
                    assert(Self::code_fold(m0, pre) == m);
                    assert(code@.skip(n as int).len() == 0);
                }
                i = n;
            } else {
                proof {
                    assert(pre.len() >= 5);
                    assert(pre.skip(3) =~= code@.skip(i + 3));
                    assert(Self::code_fold(m0, pre) == Self::code_fold(m, pre.skip(3)));
                }
                i = i + 3;
            }
        }
        m
    }
}

impl ResourceMap {
    /// Parses a cost code, rejecting anything outside the mini-language:
    /// `Some` exactly on well-formed codes, with the same result as
    /// `from_code`.
    pub fn try_from_code(code: &str) -> (r: Option<ResourceMap>)
        ensures
            r is Some <==> Self::valid_code(code@),
            r is Some ==> r == Some(Self::map_of_code(code@)),
    {
        let n = code.unicode_len();
        if n < 2 {
            return None;
        }
        let mut i: usize = 0;
        proof {
            assert(code@.skip(0) =~= code@);
        }
        loop
            invariant
                i + 2 <= n,
                n == code@.len(),
                Self::valid_code(code@) <==> Self::valid_code(code@.skip(i as int)),
            ensures
                Self::valid_code(code@),
            decreases n - i,
        {
            let ghost pre = code@.skip(i as int);
            let c0 = code.get_char(i);
            proof {
                assert(c0 == pre[0]);
            }
            let d = c0 as u32;
            if !(48 <= d && d <= 57) {
                return None;
            }
            let c1 = code.get_char(i + 1);
            proof {
                assert(c1 == pre[1]);
            }
            let is_kind = c1 == 'g' || c1 == 'r' || c1 == 'w' || c1 == 'k' || c1 == 'u';
            if !is_kind {
                return None;
            }
            if i + 2 == n {
                proof {
                    assert(pre.len() == 2);
                    assert(Self::valid_code(pre));
                }
                break;
            }
            let c2 = code.get_char(i + 2);
            proof {
                assert(c2 == pre[2]);
            }
            if c2 != '+' {
                return None;
            }
            if n - i < 5 {
                proof {
                    assert(!Self::valid_code(pre));
                }
                return None;
            }
            proof {
                assert(pre.skip(3) =~= code@.skip(i + 3));
            }
            i = i + 3;
        }
        Some(Self::from_code(code))
    }
}

/// Whether `c` is an ASCII decimal digit.
pub open spec fn is_digit(c: char) -> bool {
    '0' <= c && c <= '9'
}

/// The numeric value of a digit character.
pub open spec fn digit_val(c: char) -> int {
    c as int - '0' as int
}

/// Converts a digit character to its value.
pub fn digit_to_value(c: char) -> (v: usize)
    requires
        is_digit(c),
    ensures
        v as int == digit_val(c),
{
    (c as u32 - '0' as u32) as usize
}

impl ResourceKind {
    /// Decodes a mini-language letter given directly as a `char`.
    pub fn from_code_char(c: char) -> (r: Self)
        requires
            Self::is_code_char(c),
        ensures
            r == Self::kind_of_char(c),
    {
        if c == 'g' {
            ResourceKind::Green
        } else if c == 'r' {
            ResourceKind::Red
        } else if c == 'w' {
            ResourceKind::White
        } else if c == 'k' {
            ResourceKind::Black
        } else {
            ResourceKind::Blue
        }
    }
}

} // verus!
