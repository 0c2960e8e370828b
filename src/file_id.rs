//! Names of the log files in a data directory: `a_<v>`, `c_<v>` and `t_<v>`.

use vstd::prelude::*;
use vstd::string::*;

use crate::error::KvError;

verus! {

/// Identifies a log file by its role and version.
///
/// The declared order of the variants gives the order of roles:
/// compact files first, then append files, then temporary files.
#[derive(Debug, Clone, Copy, PartialEq, Eq, Structural, Ord, Hash)]
pub enum FileId {
    Compact(u32),
    Append(u32),
    Temp(u32),
}

impl PartialOrd for FileId {
    fn partial_cmp(&self, other: &FileId) -> (r: Option<core::cmp::Ordering>) {
        let a = self.role_rank();
        let b = other.role_rank();
        if a < b {
            Some(core::cmp::Ordering::Less)
        } else if a > b {
            Some(core::cmp::Ordering::Greater)
        } else if self.version() < other.version() {
            Some(core::cmp::Ordering::Less)
        } else if self.version() > other.version() {
            Some(core::cmp::Ordering::Greater)
        } else {
            Some(core::cmp::Ordering::Equal)
        }
    }
}

impl vstd::std_specs::cmp::PartialOrdSpecImpl for FileId {
    open spec fn obeys_partial_cmp_spec() -> bool {
        true
    }

    open spec fn partial_cmp_spec(&self, other: &FileId) -> Option<core::cmp::Ordering> {
        if file_id_lt(*self, *other) {
            Some(core::cmp::Ordering::Less)
        } else if file_id_lt(*other, *self) {
            Some(core::cmp::Ordering::Greater)
        } else {
            Some(core::cmp::Ordering::Equal)
        }
    }
}

/// Rank of a file's role in the ordering of file ids.
pub open spec fn role_rank(id: FileId) -> int {
    match id {
        FileId::Compact(_) => 0,
        FileId::Append(_) => 1,
        FileId::Temp(_) => 2,
    }
}

pub open spec fn version_of(id: FileId) -> u32 {
    match id {
        FileId::Compact(v) => v,
        FileId::Append(v) => v,
        FileId::Temp(v) => v,
    }
}

/// Strict order on file ids: by role, then by version.
pub open spec fn file_id_lt(a: FileId, b: FileId) -> bool {
    role_rank(a) < role_rank(b) || (role_rank(a) == role_rank(b) && version_of(a) < version_of(b))
}

pub open spec fn is_digit(c: char) -> bool {
    '0' <= c <= '9'
}

pub open spec fn digit_value(c: char) -> int {
    (c as int) - ('0' as int)
}

pub open spec fn digit_char(d: nat) -> char
    recommends
        d < 10,
{
    (('0' as nat) + d) as char
}

pub open spec fn all_digits(s: Seq<char>) -> bool {
    forall|i: int| 0 <= i < s.len() ==> is_digit(#[trigger] s[i])
}

/// The number written by a string of decimal digits, most significant first.
pub open spec fn decimal_value(s: Seq<char>) -> int
    decreases s.len(),
{
    if s.len() == 0 {
        0
    } else {
        decimal_value(s.drop_last()) * 10 + digit_value(s.last())
    }
}

/// The shortest decimal writing of `n`.
pub open spec fn decimal_digits(n: nat) -> Seq<char>
    decreases n,
{
    if n < 10 {
        seq![digit_char(n)]
    } else {
        decimal_digits(n / 10).push(digit_char(n % 10))
    }
}

/// What a version text denotes: one or more decimal digits whose value
/// fits in 32 bits.
pub open spec fn version_text_value(s: Seq<char>) -> Option<u32> {
    if s.len() > 0 && all_digits(s) && decimal_value(s) <= u32::MAX {
        Some(decimal_value(s) as u32)
    } else {
        None
    }
}

pub open spec fn role_char(id: FileId) -> char {
    match id {
        FileId::Compact(_) => 'c',
        FileId::Append(_) => 'a',
        FileId::Temp(_) => 't',
    }
}

pub open spec fn with_role(c: char, v: u32) -> Option<FileId> {
    if c == 'c' {
        Some(FileId::Compact(v))
    } else if c == 'a' {
        Some(FileId::Append(v))
    } else if c == 't' {
        Some(FileId::Temp(v))
    } else {
        None
    }
}

/// The file name of a file id.
pub open spec fn file_name(id: FileId) -> Seq<char> {
    seq![role_char(id), '_'] + decimal_digits(version_of(id) as nat)
}

/// The file id that a file name denotes, if any: a role letter, an
/// underscore, and a version text.
pub open spec fn parse_file_name(s: Seq<char>) -> Option<FileId> {
    if s.len() >= 2 && s[1] == '_' {
        match version_text_value(s.subrange(2, s.len() as int)) {
            Some(v) => with_role(s[0], v),
            None => None,
        }
    } else {
        None
    }
}

proof fn lemma_decimal_value_push(s: Seq<char>, c: char)
    ensures
        decimal_value(s.push(c)) == decimal_value(s) * 10 + digit_value(c),
{
    assert(s.push(c).drop_last() =~= s);
}

proof fn lemma_decimal_digits(n: nat)
    ensures
        decimal_digits(n).len() > 0,
        all_digits(decimal_digits(n)),
        decimal_value(decimal_digits(n)) == n,
    decreases n,
{
    if n < 10 {
        assert(decimal_digits(n).drop_last() =~= Seq::<char>::empty());
        assert(digit_value(digit_char(n)) == n);
        assert(decimal_value(Seq::<char>::empty()) == 0);
        assert(decimal_digits(n).last() == digit_char(n));
    } else {
        lemma_decimal_digits(n / 10);
        let s = decimal_digits(n / 10);
        lemma_decimal_value_push(s, digit_char(n % 10));
        assert(digit_value(digit_char((n % 10) as nat)) == n % 10);
        assert((n / 10) * 10 + n % 10 == n);
    }
}

proof fn lemma_prefix_value_grows(s: Seq<char>, j: int, k: int)
    requires
        all_digits(s),
        0 <= j <= k <= s.len(),
    ensures
        decimal_value(s.subrange(0, j)) <= decimal_value(s.subrange(0, k)),
    decreases k - j,
{
    if j < k {
        lemma_prefix_value_grows(s, j, k - 1);
        assert(s.subrange(0, k).drop_last() =~= s.subrange(0, k - 1));
        assert(decimal_value(s.subrange(0, k - 1)) >= 0) by {
            lemma_prefix_nonneg(s, k - 1);
        }
    }
}

proof fn lemma_prefix_nonneg(s: Seq<char>, k: int)
    requires
        all_digits(s),
        0 <= k <= s.len(),
    ensures
        decimal_value(s.subrange(0, k)) >= 0,
    decreases k,
{
    if k > 0 {
        lemma_prefix_nonneg(s, k - 1);
        assert(s.subrange(0, k).drop_last() =~= s.subrange(0, k - 1));
    }
}

/// Formatting a file id and parsing the name back gives the same file id.
pub proof fn lemma_file_name_round_trip(id: FileId)
    ensures
        parse_file_name(file_name(id)) == Some(id),
{
    let v = version_of(id);
    lemma_decimal_digits(v as nat);
    let s = file_name(id);
    assert(s.subrange(2, s.len() as int) =~= decimal_digits(v as nat));
}

impl FileId {
    /// Parses a file name of the form `<role>_<version>`, where the role is
    /// `a`, `c` or `t`.
    pub fn parse(path: &str) -> (r: Result<FileId, KvError>)
        ensures
            match parse_file_name(path@) {
                Some(id) => r == Ok::<FileId, KvError>(id),
                None => r matches Err(KvError::ParseFileId { path: p }) && p@ == path@,
            },
    {
        let cs = chars_of(path);
        let n = cs.len();
        if n < 2 || cs[1] != '_' {
            return Err(KvError::ParseFileId { path: String::from_str(path) });
        }
        let start: usize = 2;
        let ghost text = path@.subrange(2, n as int);
        let ghost d = text;
        if start >= n {
            return Err(KvError::ParseFileId { path: String::from_str(path) });
        }
        let mut value: u64 = 0;
        let mut i: usize = start;
        while i < n
            invariant
                start <= i <= n,
                n == cs@.len(),
                cs@ == path@,
                d == cs@.subrange(start as int, n as int),
                text == path@.subrange(2, n as int),
                d == text,
                d.len() > 0,
                all_digits(d.subrange(0, i - start)),
                value == decimal_value(d.subrange(0, i - start)),
                value <= u32::MAX,
            decreases n - i,
        {
            let c = cs[i];
            if !('0' <= c && c <= '9') {
                assert(!all_digits(d)) by {
                    assert(d[i - start] == c);
                }
                assert(version_text_value(text) is None);
                assert(parse_file_name(path@) is None);
                return Err(KvError::ParseFileId { path: String::from_str(path) });
            }
            let digit = (c as u32 - '0' as u32) as u64;
            proof {
                assert(d.subrange(0, i + 1 - start).drop_last() =~= d.subrange(0, i - start));
                assert(d.subrange(0, i + 1 - start).last() == c);
            }
            let next = value * 10 + digit;
            if next > u32::MAX as u64 {
                proof {
                    assert forall|k: int| 0 <= k < i + 1 - start implies is_digit(
                        #[trigger] d.subrange(0, i + 1 - start)[k],
                    ) by {
                        if k < i - start {
                            assert(d.subrange(0, i + 1 - start)[k] == d.subrange(0, i - start)[k]);
                        }
                    }
                    if all_digits(d) {
                        lemma_prefix_value_grows(d, i + 1 - start, d.len() as int);
                        assert(d.subrange(0, d.len() as int) =~= d);
                    }
                    assert(version_text_value(text) is None);
                    assert(parse_file_name(path@) is None);
                }
                return Err(KvError::ParseFileId { path: String::from_str(path) });
            }
            value = next;
            i = i + 1;
            proof {
                assert forall|k: int| 0 <= k < i - start implies is_digit(
                    #[trigger] d.subrange(0, i - start)[k],
                ) by {
                    if k < i - 1 - start {
                        assert(d.subrange(0, i - start)[k] == d.subrange(0, i - 1 - start)[k]);
                    }
                }
            }
        }
        assert(d.subrange(0, n - start) =~= d);
        let v = value as u32;
        let role = cs[0];
        if role == 'c' {
            Ok(FileId::Compact(v))
        } else if role == 'a' {
            Ok(FileId::Append(v))
        } else if role == 't' {
            Ok(FileId::Temp(v))
        } else {
            Err(KvError::ParseFileId { path: String::from_str(path) })
        }
    }

    pub fn is_append(&self) -> (r: bool)
        ensures
            r == (*self matches FileId::Append(_)),
    {
        match self {
            FileId::Append(_) => true,
            _ => false,
        }
    }

    pub fn is_compacted(&self) -> (r: bool)
        ensures
            r == (*self matches FileId::Compact(_)),
    {
        match self {
            FileId::Compact(_) => true,
            _ => false,
        }
    }

    pub fn is_temp(&self) -> (r: bool)
        ensures
            r == (*self matches FileId::Temp(_)),
    {
        match self {
            FileId::Temp(_) => true,
            _ => false,
        }
    }

    pub fn version(&self) -> (r: u32)
        ensures
            r == version_of(*self),
    {
        match self {
            FileId::Append(v) => *v,
            FileId::Compact(v) => *v,
            FileId::Temp(v) => *v,
        }
    }

    fn role_rank(&self) -> (r: u8)
        ensures
            r == role_rank(*self),
    {
        match self {
            FileId::Compact(_) => 0,
            FileId::Append(_) => 1,
            FileId::Temp(_) => 2,
        }
    }

    /// The file name of this id, such as `a_12`.
    pub fn to_string(&self) -> (r: String)
        ensures
            r@ == file_name(*self),
    {
        let mut s = String::new();
        match self {
            FileId::Append(_) => s.append(role_prefix('a')),
            FileId::Compact(_) => s.append(role_prefix('c')),
            FileId::Temp(_) => s.append(role_prefix('t')),
        }
        push_decimal(&mut s, self.version());
        s
    }

    /// The file name of this id; the same text as [`FileId::to_string`].
    pub fn to_file_name(&self) -> (r: String)
        ensures
            r@ == file_name(*self),
    {
        self.to_string()
    }
}

impl From<FileId> for String {
    fn from(id: FileId) -> (r: String) {
        id.to_string()
    }
}

impl vstd::std_specs::convert::FromSpecImpl<FileId> for String {
    open spec fn obeys_from_spec() -> bool {
        false
    }

    open spec fn from_spec(id: FileId) -> String {
        arbitrary()
    }
}

fn role_prefix(c: char) -> (r: &'static str)
    requires
        c == 'a' || c == 'c' || c == 't',
    ensures
        r@ == seq![c, '_'],
{
    if c == 'a' {
        proof {
            reveal_strlit("a_");
        }
        "a_"
    } else if c == 'c' {
        proof {
            reveal_strlit("c_");
        }
        "c_"
    } else {
        proof {
            reveal_strlit("t_");
        }
        "t_"
    }
}

fn digit_text(d: u32) -> (r: &'static str)
    requires
        d < 10,
    ensures
        r@ == seq![digit_char(d as nat)],
{
    proof {
        reveal_strlit("0");
        reveal_strlit("1");
        reveal_strlit("2");
        reveal_strlit("3");
        reveal_strlit("4");
        reveal_strlit("5");
        reveal_strlit("6");
        reveal_strlit("7");
        reveal_strlit("8");
        reveal_strlit("9");
    }
    match d {
        0 => "0",
        1 => "1",
        2 => "2",
        3 => "3",
        4 => "4",
        5 => "5",
        6 => "6",
        7 => "7",
        8 => "8",
        _ => "9",
    }
}

/// Appends the decimal writing of `n` to `s`.
fn push_decimal(s: &mut String, n: u32)
    ensures
        final(s)@ == old(s)@ + decimal_digits(n as nat),
    decreases n,
{
    if n >= 10 {
        push_decimal(s, n / 10);
    }
    s.append(digit_text(n % 10));
    proof {
        if n >= 10 {
            assert(decimal_digits(n as nat) == decimal_digits((n / 10) as nat).push(
                digit_char((n % 10) as nat),
            ));
        }
    }
}

/// The characters of a string slice.
fn chars_of(s: &str) -> (r: Vec<char>)
    ensures
        r@ == s@,
{
    let mut r: Vec<char> = Vec::new();
    for c in it: s.chars()
        invariant
            r@ == it.seq().subrange(0, it.index() as int),
    {
        r.push(c);
    }
    r
}

} // verus!
