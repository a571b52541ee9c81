//! A FAT filesystem reader for volumes below the FAT32 size: cluster chains are read as
//! 16-bit FAT entries, also on volumes small enough to be FAT12.
use vstd::prelude::*;
use vstd::utf8::{valid_utf8, decode_utf8};
use vstd::string::{StrSliceExecFns, StringExecFns};
use vstd::bytes::{u16_from_le_bytes, u32_from_le_bytes};

use crate::bits::{bit8};
use super::cursor::{u16_at, u32_at};
use super::disk::{zero_bytes, StorageDevice};

pub use super::cursor::Cursor;

verus! {

/// The FAT variant.
#[derive(Debug, Clone, Copy, PartialEq, Eq, Structural)]
pub enum FatType {
    Fat12,
    Fat16,
    Fat32,
}

/// A file allocation table held in memory.
#[derive(Debug)]
pub struct Fat {
    data: Vec<u8>,
    ty: FatType,
}

/// The FAT16 entry of cluster `c`: the next cluster of its chain or a marker.
pub open spec fn fat16_entry(fat: Seq<u8>, c: nat) -> u16 {
    u16_at(fat, 2 * c as int)
}

/// Prepends `prefix` to a successful outcome.
pub open spec fn prepend_chain(prefix: Seq<usize>, r: Result<Seq<usize>, &'static str>) -> Result<Seq<usize>, &'static str> {
    match r {
        Ok(rest) => Ok(prefix + rest),
        Err(e) => Err(e),
    }
}

/// The cluster chain of a FAT16 table that starts at cluster `c`, followed for at most
/// `fuel` clusters. A chain that ends on a free, reserved or defect marker is an error;
/// so is one that leaves the table or is longer than `fuel`.
pub open spec fn fat16_chain(fat: Seq<u8>, c: nat, fuel: nat) -> Result<Seq<usize>, &'static str>
    decreases fuel,
{
    if fuel == 0 {
        Err("cluster chain longer than the FAT")
    } else if 2 * c + 2 > fat.len() {
        Err("cluster outside of the FAT")
    } else {
        let next = fat16_entry(fat, c);
        if next == 0 {
            Err("free cluster in cluster chain")
        } else if next == 0xFFF7 {
            Err("defect cluster in cluster chain")
        } else if next == 0x1 {
            Err("1 in cluster chain (reserved)")
        } else if next >= 0xFFF8 {
            Ok(seq![c as usize])
        } else {
            prepend_chain(seq![c as usize], fat16_chain(fat, next as nat, (fuel - 1) as nat))
        }
    }
}

/// Number of entries in a FAT16 table of `len` bytes: the longest chain it can hold.
pub open spec fn fat16_entry_count(len: nat) -> nat {
    len / 2
}

impl Fat {
    /// The table bytes.
    pub closed spec fn data_spec(&self) -> Seq<u8> {
        self.data@
    }

    /// The FAT variant.
    pub closed spec fn ty_spec(&self) -> FatType {
        self.ty
    }

    /// The clusters of the chain that starts at `first_cluster`, in chain order.
    pub fn get_cluster_chain(&self, first_cluster: usize) -> (r: Result<Vec<usize>, &'static str>)
        requires
            self.ty_spec() == FatType::Fat16,
        ensures
            match fat16_chain(self.data_spec(), first_cluster as nat, fat16_entry_count(self.data_spec().len()) + 1) {
                Ok(c) => r matches Ok(v) && v@ == c,
                Err(e) => r matches Err(m) && m@ == e@,
            },
    {
        let ghost fat = self.data@;
        let ghost total_fuel: nat = fat16_entry_count(fat.len()) + 1;
        let max_steps = self.data.len() / 2 + 1;
        let mut clusters: Vec<usize> = Vec::new();
        let mut current = first_cluster;
        let mut steps: usize = 0;
        loop
            invariant
                fat == self.data@,
                max_steps == total_fuel,
                total_fuel == fat16_entry_count(fat.len()) + 1,
                steps <= max_steps,
                fat16_chain(fat, first_cluster as nat, total_fuel)
                    == prepend_chain(clusters@, fat16_chain(fat, current as nat, (total_fuel - steps) as nat)),
            decreases max_steps - steps,
        {
            if steps == max_steps {
                return Err("cluster chain longer than the FAT");
            }
            if current >= self.data.len() / 2 {
                return Err("cluster outside of the FAT");
            }
            let ghost before = clusters@;
            clusters.push(current);
            let index = current * 2;
            let next = u16_from_le_bytes(&self.data[index..index + 2]) as usize;
            proof {
                assert(self.data@.subrange(index as int, index + 2) == fat.subrange(2 * current, 2 * current + 2));
            }
            if next == 0 {
                return Err("free cluster in cluster chain");
            } else if next == 0xFFF7 {
                return Err("defect cluster in cluster chain");
            } else if next == 0x1 {
                return Err("1 in cluster chain (reserved)");
            } else if next >= 0xFFF8 {
                proof {
                    assert(before + seq![current] =~= clusters@);
                }
                return Ok(clusters);
            }
            proof {
                assert(before + (seq![current] + fat16_chain(fat, next as nat, (total_fuel - steps - 1) as nat)->Ok_0)
                    =~= clusters@ + fat16_chain(fat, next as nat, (total_fuel - steps - 1) as nat)->Ok_0);
            }
            current = next;
            steps += 1;
        }
    }
}


/// A character with Unicode's White_Space property, the set that `char::is_whitespace`
/// and `str::trim` go by.
pub open spec fn is_white_space(c: char) -> bool {
    let n = c as u32;
    ||| 0x9 <= n <= 0xd
    ||| n == 0x20
    ||| n == 0x85
    ||| n == 0xa0
    ||| n == 0x1680
    ||| 0x2000 <= n <= 0x200a
    ||| n == 0x2028
    ||| n == 0x2029
    ||| n == 0x202f
    ||| n == 0x205f
    ||| n == 0x3000
}

/// `s` without its leading white space.
pub open spec fn trim_start_spec(s: Seq<char>) -> Seq<char>
    decreases s.len(),
{
    if s.len() > 0 && is_white_space(s[0]) {
        trim_start_spec(s.drop_first())
    } else {
        s
    }
}

/// `s` without its trailing white space.
pub open spec fn trim_end_spec(s: Seq<char>) -> Seq<char>
    decreases s.len(),
{
    if s.len() > 0 && is_white_space(s.last()) {
        trim_end_spec(s.drop_last())
    } else {
        s
    }
}

/// What `str::trim` leaves of `s`: the text without leading and trailing white space.
pub open spec fn trim_whitespace(s: Seq<char>) -> Seq<char> {
    trim_end_spec(trim_start_spec(s))
}

/// `core::str::from_utf8`: the text that `bytes` encode. Claimed: present exactly when the
/// bytes are valid UTF-8, and then holding the decoded characters.
#[verifier::external_body]
fn str_from_utf8(bytes: &[u8]) -> (r: Option<&str>)
    ensures
        r is Some <==> valid_utf8(bytes@),
        r matches Some(s) ==> s@ == decode_utf8(bytes@),
{
    core::str::from_utf8(bytes).ok()
}

/// Whether `c` is a white-space character.
fn white_space(c: char) -> (r: bool)
    ensures
        r == is_white_space(c),
{
    let n = c as u32;
    (0x9 <= n && n <= 0xd) || n == 0x20 || n == 0x85 || n == 0xa0 || n == 0x1680 || (0x2000 <= n && n <= 0x200a)
        || n == 0x2028 || n == 0x2029 || n == 0x202f || n == 0x205f || n == 0x3000
}

proof fn lemma_trim_start(s: Seq<char>, a: int)
    requires
        0 <= a <= s.len(),
        forall|i: int| 0 <= i < a ==> is_white_space(#[trigger] s[i]),
        a == s.len() || !is_white_space(s[a]),
    ensures
        trim_start_spec(s) == s.subrange(a, s.len() as int),
    decreases a,
{
    if a == 0 {
        assert(s.subrange(0, s.len() as int) =~= s);
    } else {
        assert(is_white_space(s[0]));
        let t = s.drop_first();
        assert forall|i: int| 0 <= i < a - 1 implies is_white_space(#[trigger] t[i]) by {
            assert(t[i] == s[i + 1]);
        }
        if a < s.len() {
            assert(t[a - 1] == s[a]);
        }
        lemma_trim_start(t, a - 1);
        assert(t.subrange(a - 1, t.len() as int) =~= s.subrange(a, s.len() as int));
    }
}

proof fn lemma_trim_end(t: Seq<char>, b: int)
    requires
        0 <= b <= t.len(),
        forall|i: int| b <= i < t.len() ==> is_white_space(#[trigger] t[i]),
        b == 0 || !is_white_space(t[b - 1]),
    ensures
        trim_end_spec(t) == t.subrange(0, b),
    decreases t.len() - b,
{
    if b == t.len() {
        assert(t.subrange(0, b) =~= t);
    } else {
        assert(is_white_space(t[t.len() - 1]));
        let u = t.drop_last();
        assert forall|i: int| b <= i < u.len() implies is_white_space(#[trigger] u[i]) by {
            assert(u[i] == t[i]);
        }
        if b > 0 {
            assert(u[b - 1] == t[b - 1]);
        }
        lemma_trim_end(u, b);
        assert(u.subrange(0, b) =~= t.subrange(0, b));
    }
}

/// `s` without leading and trailing white space, as `str::trim` leaves it.
fn str_trim(s: &str) -> (r: &str)
    ensures
        r@ == trim_whitespace(s@),
{
    let n = s.unicode_len();
    let mut a: usize = 0;
    while a < n
        invariant
            n == s@.len(),
            a <= n,
            forall|i: int| 0 <= i < a ==> is_white_space(#[trigger] s@[i]),
        ensures
            a <= n,
            forall|i: int| 0 <= i < a ==> is_white_space(#[trigger] s@[i]),
            a == n || !is_white_space(s@[a as int]),
        decreases n - a,
    {
        if !white_space(s.get_char(a)) {
            break;
        }
        a = a + 1;
    }
    let mut b: usize = n;
    while b > a
        invariant
            n == s@.len(),
            a <= b <= n,
            forall|i: int| b <= i < n ==> is_white_space(#[trigger] s@[i]),
        ensures
            a <= b <= n,
            forall|i: int| b <= i < n ==> is_white_space(#[trigger] s@[i]),
            b == a || !is_white_space(s@[b - 1]),
        decreases b - a,
    {
        if !white_space(s.get_char(b - 1)) {
            break;
        }
        b = b - 1;
    }
    proof {
        lemma_trim_start(s@, a as int);
        let t = s@.subrange(a as int, n as int);
        assert forall|i: int| b - a <= i < t.len() implies is_white_space(#[trigger] t[i]) by {
            assert(t[i] == s@[a + i]);
        }
        if b > a {
            assert(t[b - a - 1] == s@[b - 1]);
        }
        lemma_trim_end(t, b - a);
        assert(t.subrange(0, b - a) =~= s@.subrange(a as int, b as int));
    }
    s.substring_char(a, b)
}

/// `name`, a dot, then `extension`.
fn dotted_name(name: &str, extension: &str) -> (r: String)
    ensures
        r@ == name@ + seq!['.'] + extension@,
{
    let mut joined = String::from_str(name);
    let dot = ".";
    proof {
        reveal_strlit(".");
    }
    joined.append(dot);
    joined.append(extension);
    joined
}

/// The pieces of `p` between slashes, in order: one more than there are slashes.
pub open spec fn path_tokens(p: Seq<char>) -> Seq<Seq<char>>
    decreases p.len(),
{
    if p.len() == 0 {
        seq![seq![]]
    } else {
        let rest = path_tokens(p.drop_last());
        if p.last() == '/' {
            rest.push(seq![])
        } else {
            rest.update(rest.len() - 1, rest.last().push(p.last()))
        }
    }
}

proof fn lemma_path_tokens_nonempty(p: Seq<char>)
    ensures
        path_tokens(p).len() >= 1,
    decreases p.len(),
{
    if p.len() > 0 {
        lemma_path_tokens_nonempty(p.drop_last());
    }
}

/// The pieces of `path` between slashes, in order, as `str::split` on `'/'` gives them.
fn split_path<'a>(path: &'a str) -> (r: Vec<&'a str>)
    ensures
        r@.len() == path_tokens(path@).len(),
        forall|i: int| 0 <= i < r@.len() ==> (#[trigger] r@[i])@ == path_tokens(path@)[i],
{
    let n = path.unicode_len();
    let mut pieces: Vec<&'a str> = Vec::new();
    let mut start: usize = 0;
    let mut i: usize = 0;
    while i < n
        invariant
            n == path@.len(),
            start <= i <= n,
            pieces@.len() + 1 == path_tokens(path@.subrange(0, i as int)).len(),
            forall|k: int| 0 <= k < pieces@.len() ==> (#[trigger] pieces@[k])@ == path_tokens(path@.subrange(0, i as int))[k],
            path_tokens(path@.subrange(0, i as int)).last() == path@.subrange(start as int, i as int),
        decreases n - i,
    {
        let c = path.get_char(i);
        let ghost pre = path@.subrange(0, i as int);
        let ghost next = path@.subrange(0, i + 1);
        proof {
            assert(next.drop_last() =~= pre);
            assert(next.last() == c);
            lemma_path_tokens_nonempty(pre);
        }
        if c == '/' {
            let piece = path.substring_char(start, i);
            pieces.push(piece);
            start = i + 1;
            proof {
                assert(path_tokens(next) == path_tokens(pre).push(seq![]));
                assert(path@.subrange(start as int, i + 1) =~= Seq::<char>::empty());
            }
        } else {
            proof {
                let rest = path_tokens(pre);
                assert(path_tokens(next) == rest.update(rest.len() - 1, rest.last().push(c)));
                assert(path@.subrange(start as int, i + 1) =~= path@.subrange(start as int, i as int).push(c));
            }
        }
        i = i + 1;
    }
    let last = path.substring_char(start, n);
    pieces.push(last);
    proof {
        assert(path@.subrange(0, n as int) =~= path@);
    }
    pieces
}

/// Whether `path` starts with a slash.
fn starts_with_slash(path: &str) -> (r: bool)
    ensures
        r == (path@.len() > 0 && path@[0] == '/'),
{
    !path.is_empty() && path.get_char(0) == '/'
}

/// What `str::to_uppercase` makes of `s`: its Unicode upper-case form.
pub uninterp spec fn uppercase(s: Seq<char>) -> Seq<char>;

/// `str::to_uppercase`. Claimed: the result is `uppercase` of the argument's characters.
#[verifier::external_body]
fn to_uppercase(s: &str) -> (r: String)
    ensures
        r@ == uppercase(s@),
{
    s.to_uppercase()
}

/// Whether two names are the same once upper-cased.
pub open spec fn same_name(a: Seq<char>, b: Seq<char>) -> bool {
    uppercase(a) == uppercase(b)
}

/// The views of `entries`.
pub open spec fn entry_views(entries: Seq<FatDirectoryEntry>) -> Seq<FatDirectoryEntryView> {
    entries.map_values(|e: FatDirectoryEntry| e.view())
}

/// The position of the first of `names` that is `wanted`.
pub fn first_equal_name(names: &[String], wanted: &String) -> (r: Option<usize>)
    ensures
        r matches Some(i) ==> i < names@.len() && names@[i as int]@ == wanted@
            && forall|j: int| 0 <= j < i ==> (#[trigger] names@[j])@ != wanted@,
        r is None ==> forall|j: int| 0 <= j < names@.len() ==> (#[trigger] names@[j])@ != wanted@,
{
    let mut i: usize = 0;
    while i < names.len()
        invariant
            i <= names@.len(),
            forall|j: int| 0 <= j < i ==> (#[trigger] names@[j])@ != wanted@,
        decreases names@.len() - i,
    {
        if names[i] == *wanted {
            return Some(i);
        }
        i = i + 1;
    }
    None
}

/// The position of the first of `entries` whose name is `name` once both are upper-cased.
fn find_entry(entries: &[FatDirectoryEntry], name: &str) -> (r: Option<usize>)
    ensures
        r matches Some(i) ==> i < entries@.len() && same_name(entries@[i as int].name@, name@)
            && forall|j: int| 0 <= j < i ==> !same_name(#[trigger] entries@[j].name@, name@),
        r is None ==> forall|j: int| 0 <= j < entries@.len() ==> !same_name(#[trigger] entries@[j].name@, name@),
        r matches Some(i) ==> named_at(entry_views(entries@), name@, i as int),
        r is None ==> forall|j: int| 0 <= j < entries@.len() ==> !same_name(#[trigger] entry_views(entries@)[j].0, name@),
{
    let wanted = to_uppercase(name);
    let mut names: Vec<String> = Vec::new();
    let mut i: usize = 0;
    while i < entries.len()
        invariant
            i <= entries@.len(),
            names@.len() == i,
            forall|j: int| 0 <= j < i ==> (#[trigger] names@[j])@ == uppercase(entries@[j].name@),
        decreases entries@.len() - i,
    {
        names.push(to_uppercase(entries[i].name.as_str()));
        i = i + 1;
    }
    let r = first_equal_name(names.as_slice(), &wanted);
    proof {
        assert forall|j: int| 0 <= j < entries@.len() implies
            (same_name(#[trigger] entries@[j].name@, name@) <==> names@[j]@ == wanted@) by {
            assert(names@[j]@ == uppercase(entries@[j].name@));
        }
    }
    r
}

/// The position of the last piece of `tokens` that is not empty.
fn last_nonempty(tokens: &Vec<&str>) -> (r: Option<usize>)
    ensures
        r matches Some(i) ==> i < tokens@.len() && tokens@[i as int]@.len() > 0
            && forall|j: int| i < j < tokens@.len() ==> (#[trigger] tokens@[j])@.len() == 0,
        r is None ==> forall|j: int| 0 <= j < tokens@.len() ==> (#[trigger] tokens@[j])@.len() == 0,
{
    let mut i: usize = tokens.len();
    while i > 0
        invariant
            i <= tokens@.len(),
            forall|j: int| i <= j < tokens@.len() ==> (#[trigger] tokens@[j])@.len() == 0,
        decreases i,
    {
        if !tokens[i - 1].is_empty() {
            return Some(i - 1);
        }
        i = i - 1;
    }
    None
}

/// An entry of a FAT directory.
#[derive(Debug, Clone)]
pub struct FatDirectoryEntry {
    pub name: String,
    pub long_name: Option<String>,
    pub attributes: u8,
    pub ctime_10ms: u8,
    pub ctime: u16,
    pub cdate: u16,
    pub adate: u16,
    pub mtime: u16,
    pub mdate: u16,
    pub start_cluster: u32,
    pub size: u32,
}

/// What a directory entry holds: name, attributes, creation time (10 ms units), creation
/// time, creation date, access date, modification time, modification date, first cluster
/// and size.
pub type FatDirectoryEntryView = (Seq<char>, u8, u8, u16, u16, u16, u16, u16, u32, u32);

/// Size of one directory entry.
pub const BYTES_PER_ENTRY: usize = 32;

/// The name of an entry from its 11 name bytes: the trimmed base name, then a dot and the
/// trimmed extension when the extension is not empty (`None`: not UTF-8).
pub open spec fn entry_name_spec(raw: Seq<u8>) -> Option<Seq<char>> {
    let base = raw.subrange(0, 8);
    let ext = raw.subrange(8, 11);
    if !valid_utf8(base) || !valid_utf8(ext) {
        None
    } else {
        let name = trim_whitespace(decode_utf8(base));
        let extension = trim_whitespace(decode_utf8(ext));
        Some(if extension.len() == 0 { name } else { name + seq!['.'] + extension })
    }
}

/// The entry that the 32 bytes `e` describe, named `name`.
pub open spec fn entry_fields(name: Seq<char>, e: Seq<u8>) -> FatDirectoryEntryView {
    (name, e[11], e[13], u16_at(e, 14), u16_at(e, 16), u16_at(e, 18), u16_at(e, 22), u16_at(e, 24),
        ((u16_at(e, 20) as u32) << 16u32) | (u16_at(e, 26) as u32), u32_at(e, 28))
}

/// The position after the long-file-name entries (attribute byte 0x0F) at `pos`.
pub open spec fn skip_long_names(data: Seq<u8>, pos: int) -> int
    decreases data.len() - pos,
{
    if 0 <= pos && data.len() - pos >= 32 && data[pos + 11] == 0x0F {
        skip_long_names(data, pos + 32)
    } else {
        pos
    }
}

/// Skipping long-file-name entries moves forward and stays within the data.
pub proof fn lemma_skip_long_names(data: Seq<u8>, pos: int)
    requires
        0 <= pos <= data.len(),
    ensures
        pos <= skip_long_names(data, pos) <= data.len(),
    decreases data.len() - pos,
{
    if data.len() - pos >= 32 && data[pos + 11] == 0x0F {
        lemma_skip_long_names(data, pos + 32);
    }
}

/// Reading one entry at `pos`: the entry if there is one, whether the directory ends
/// there, and the position afterwards. Long-file-name entries before it are passed over;
/// an entry whose name is not UTF-8 yields nothing and leaves the position 11 bytes in.
pub open spec fn read_entry_spec(data: Seq<u8>, pos: int) -> (Option<FatDirectoryEntryView>, bool, int) {
    let p = skip_long_names(data, pos);
    if data.len() - p < 32 {
        (None, false, p)
    } else if data[p] == 0 {
        (None, true, p)
    } else {
        match entry_name_spec(data.subrange(p, p + 11)) {
            None => (None, false, p + 11),
            Some(name) => (Some(entry_fields(name, data.subrange(p, p + 32))), false, p + 32),
        }
    }
}

/// The entries of the directory held in `data` from `pos` on (`None`: the listing runs
/// past the end of the data).
pub open spec fn directory_spec(data: Seq<u8>, pos: int) -> Option<Seq<FatDirectoryEntryView>>
    decreases data.len() - pos,
{
    if pos < 0 || pos > data.len() {
        None
    } else if data.len() - pos < 32 {
        Some(seq![])
    } else {
        proof {
            lemma_skip_long_names(data, pos);
        }
        let (entry, done, next) = read_entry_spec(data, pos);
        match entry {
            Some(v) => match directory_spec(data, next) {
                Some(rest) => Some(seq![v] + rest),
                None => None,
            },
            None => if done {
                Some(seq![])
            } else if data.len() - next < 32 {
                None
            } else {
                directory_spec(data, next + 32)
            },
        }
    }
}

impl FatDirectoryEntry {
    pub open spec fn view(&self) -> FatDirectoryEntryView {
        (self.name@, self.attributes, self.ctime_10ms, self.ctime, self.cdate, self.adate, self.mtime, self.mdate, self.start_cluster, self.size)
    }

    /// A copy of the entry.
    pub fn copy(&self) -> (r: Self)
        ensures
            r.view() == self.view(),
            r.long_name == self.long_name,
    {
        let long_name = match &self.long_name {
            Some(n) => Some(n.clone()),
            None => None,
        };
        Self {
            name: self.name.clone(),
            long_name,
            attributes: self.attributes,
            ctime_10ms: self.ctime_10ms,
            ctime: self.ctime,
            cdate: self.cdate,
            adate: self.adate,
            mtime: self.mtime,
            mdate: self.mdate,
            start_cluster: self.start_cluster,
            size: self.size,
        }
    }

    /// Reads the next entry from `buffer`: the entry if one is there, and whether the
    /// directory ends there.
    pub fn read_from(buffer: &mut Cursor) -> (r: (Option<Self>, bool))
        requires
            old(buffer).remaining_spec() >= 32,
        ensures
            final(buffer).data() == old(buffer).data(),
            ({
                let (e, done, next) = read_entry_spec(old(buffer).data(), old(buffer).pos() as int);
                &&& r.1 == done
                &&& final(buffer).pos() == next
                &&& match e {
                    Some(v) => r.0 matches Some(x) && x.view() == v && x.long_name is None,
                    None => r.0 is None,
                }
            }),
    {
        let ghost data = buffer.data();
        let ghost start = buffer.pos() as int;
        proof {
            lemma_skip_long_names(data, start);
        }
        let long_name: Option<String> = None;
        while buffer.remaining() >= BYTES_PER_ENTRY && buffer.peek_u8(11) == 0x0F
            invariant
                buffer.data() == data,
                start <= buffer.pos() <= data.len(),
                skip_long_names(data, start) == skip_long_names(data, buffer.pos() as int),
            decreases data.len() - buffer.pos(),
        {
            buffer.skip(BYTES_PER_ENTRY);
        }

        if buffer.remaining() < BYTES_PER_ENTRY {
            return (None, false);
        }
        if buffer.peek_u8(0) == 0 {
            return (None, true);
        }

        let ghost p = buffer.pos() as int;
        let raw = buffer.read_bytes(11);
        let name = match str_from_utf8(&raw[0..8]) {
            Some(s) => str_trim(s),
            None => return (None, false),
        };
        let extension = match str_from_utf8(&raw[8..11]) {
            Some(s) => str_trim(s),
            None => return (None, false),
        };
        let name = if extension.is_empty() {
            name.to_owned()
        } else {
            dotted_name(name, extension)
        };

        let attributes = buffer.read_u8();
        let _reserved = buffer.read_u8();
        let ctime_10ms = buffer.read_u8();
        let ctime = buffer.read_u16_le();
        let cdate = buffer.read_u16_le();
        let adate = buffer.read_u16_le();
        let start_cluster_h = buffer.read_u16_le();
        let mtime = buffer.read_u16_le();
        let mdate = buffer.read_u16_le();
        let start_cluster_l = buffer.read_u16_le();
        let size = buffer.read_u32_le();
        let start_cluster = ((start_cluster_h as u32) << 16) | start_cluster_l as u32;
        proof {
            let e = data.subrange(p, p + 32);
            assert(e.subrange(14, 16) =~= data.subrange(p + 14, p + 16));
            assert(e.subrange(16, 18) =~= data.subrange(p + 16, p + 18));
            assert(e.subrange(18, 20) =~= data.subrange(p + 18, p + 20));
            assert(e.subrange(20, 22) =~= data.subrange(p + 20, p + 22));
            assert(e.subrange(22, 24) =~= data.subrange(p + 22, p + 24));
            assert(e.subrange(24, 26) =~= data.subrange(p + 24, p + 26));
            assert(e.subrange(26, 28) =~= data.subrange(p + 26, p + 28));
            assert(e.subrange(28, 32) =~= data.subrange(p + 28, p + 32));
            assert(raw@.subrange(0, 8) =~= data.subrange(p, p + 11).subrange(0, 8));
            assert(raw@.subrange(8, 11) =~= data.subrange(p, p + 11).subrange(8, 11));
        }

        (
            Some(Self {
                name,
                long_name,
                attributes,
                ctime_10ms,
                ctime,
                cdate,
                adate,
                mtime,
                mdate,
                start_cluster,
                size,
            }),
            false,
        )
    }

    /// The volume-id attribute (bit 3).
    pub fn is_volume_id(&self) -> (r: bool)
        ensures
            r == bit8(self.attributes, 3),
    {
        self.attributes & (1u8 << 3u8) != 0
    }

    /// The directory attribute (bit 4).
    pub fn is_directory(&self) -> (r: bool)
        ensures
            r == bit8(self.attributes, 4),
    {
        self.attributes & (1u8 << 4u8) != 0
    }

    /// A file: neither a volume id nor a directory.
    pub fn is_file(&self) -> (r: bool)
        ensures
            r == !(bit8(self.attributes, 3) || bit8(self.attributes, 4)),
    {
        !(self.is_volume_id() || self.is_directory())
    }

    /// The entries of the directory whose contents are `buffer`. Reading stops at the
    /// end marker or when fewer than 32 bytes are left; an entry that cannot be read is
    /// skipped. Fails where the listing would run past the end of the buffer.
    pub fn parse_directory(buffer: &[u8]) -> (r: Result<Vec<FatDirectoryEntry>, &'static str>)
        ensures
            match directory_spec(buffer@, 0) {
                Some(entries) => r matches Ok(v) && v@.map_values(|e: FatDirectoryEntry| e.view()) == entries,
                None => r is Err,
            },
            r matches Ok(v) ==> forall|i: int| 0 <= i < v@.len() ==> (#[trigger] v@[i]).long_name is None,
    {
        let ghost data = buffer@;
        let mut entries: Vec<FatDirectoryEntry> = Vec::new();
        let mut cur = Cursor::new(buffer);
        proof {
            assert(entries@.map_values(|e: FatDirectoryEntry| e.view()) =~= Seq::<FatDirectoryEntryView>::empty());
        }
        while cur.remaining() >= BYTES_PER_ENTRY
            invariant_except_break
                cur.data() == data,
                data == buffer@,
                cur.pos() <= data.len(),
                forall|i: int| 0 <= i < entries@.len() ==> (#[trigger] entries@[i]).long_name is None,
                directory_spec(data, 0) == prepend_entries(
                    entries@.map_values(|e: FatDirectoryEntry| e.view()),
                    directory_spec(data, cur.pos() as int),
                ),
            ensures
                data == buffer@,
                directory_spec(data, 0) == Some(entries@.map_values(|e: FatDirectoryEntry| e.view())),
                forall|i: int| 0 <= i < entries@.len() ==> (#[trigger] entries@[i]).long_name is None,
            decreases data.len() - cur.pos(),
        {
            let ghost pos = cur.pos() as int;
            proof {
                lemma_skip_long_names(data, pos);
            }
            match FatDirectoryEntry::read_from(&mut cur) {
                (Some(entry), _done) => {
                    proof {
                        assert(directory_spec(data, pos) == match directory_spec(data, cur.pos() as int) {
                            Some(rest) => Some(seq![entry.view()] + rest),
                            None => None,
                        });
                    }
                    let ghost prev = entries@;
                    let ghost v = entry.view();
                    entries.push(entry);
                    proof {
                        assert(entries@.map_values(|e: FatDirectoryEntry| e.view())
                            =~= prev.map_values(|e: FatDirectoryEntry| e.view()).push(v));
                        lemma_prepend_entries_push(prev.map_values(|e: FatDirectoryEntry| e.view()), v,
                            directory_spec(data, cur.pos() as int));
                    }
                },
                (None, done) => {
                    if done {
                        proof {
                            assert(directory_spec(data, pos) == Some(Seq::<FatDirectoryEntryView>::empty()));
                            assert(entries@.map_values(|e: FatDirectoryEntry| e.view())
                                =~= entries@.map_values(|e: FatDirectoryEntry| e.view()) + Seq::<FatDirectoryEntryView>::empty());
                        }
                        break;
                    } else {
                        if cur.remaining() < BYTES_PER_ENTRY {
                            proof {
                                assert(directory_spec(data, pos) is None);
                            }
                            return Err("directory entry runs past the end of the directory");
                        }
                        proof {
                            assert(directory_spec(data, pos) == directory_spec(data, cur.pos() as int + 32));
                        }
                        cur.skip(BYTES_PER_ENTRY);
                    }
                },
            }
        }
        Ok(entries)
    }
}

/// Prepends `prefix` to a listing that did not fail.
pub open spec fn prepend_entries(prefix: Seq<FatDirectoryEntryView>, r: Option<Seq<FatDirectoryEntryView>>) -> Option<Seq<FatDirectoryEntryView>> {
    match r {
        Some(rest) => Some(prefix + rest),
        None => None,
    }
}

proof fn lemma_prepend_entries_push(prefix: Seq<FatDirectoryEntryView>, v: FatDirectoryEntryView, r: Option<Seq<FatDirectoryEntryView>>)
    ensures
        prepend_entries(prefix, match r { Some(rest) => Some(seq![v] + rest), None => None }) == prepend_entries(prefix.push(v), r),
{
    if let Some(rest) = r {
        assert(prefix + (seq![v] + rest) =~= prefix.push(v) + rest);
    }
}


/// The BIOS parameter block at the start of a FAT boot sector.
#[derive(Debug, Clone, Copy)]
pub struct BiosParameterBlock {
    pub jump: [u8; 3],
    pub oem_identifier: [u8; 8],
    pub bytes_per_sector: u16,
    pub sectors_per_cluster: u8,
    pub reserved_sectors: u16,
    pub fat_count: u8,
    pub root_directory_entry_count: u16,
    pub sector_count: u16,
    pub media_descriptor_type: u8,
    pub sectors_per_fat: u16,
    pub sectors_per_track: u16,
    pub head_count: u16,
    pub hidden_sector_count: u32,
    pub large_sector_count: u32,
}

/// `bpb` is the BIOS parameter block that boot sector `b` holds in its first 36 bytes.
pub open spec fn bpb_of(b: Seq<u8>, bpb: BiosParameterBlock) -> bool {
    &&& bpb.jump@ == b.subrange(0, 3)
    &&& bpb.oem_identifier@ == b.subrange(3, 11)
    &&& bpb.bytes_per_sector == u16_at(b, 11)
    &&& bpb.sectors_per_cluster == b[13]
    &&& bpb.reserved_sectors == u16_at(b, 14)
    &&& bpb.fat_count == b[16]
    &&& bpb.root_directory_entry_count == u16_at(b, 17)
    &&& bpb.sector_count == u16_at(b, 19)
    &&& bpb.media_descriptor_type == b[21]
    &&& bpb.sectors_per_fat == u16_at(b, 22)
    &&& bpb.sectors_per_track == u16_at(b, 24)
    &&& bpb.head_count == u16_at(b, 26)
    &&& bpb.hidden_sector_count == u32_at(b, 28)
    &&& bpb.large_sector_count == u32_at(b, 32)
}

impl BiosParameterBlock {
    /// The sector count of the volume: the 16-bit count, or the 32-bit one when it is zero.
    pub open spec fn total_sectors(self) -> nat {
        if self.sector_count != 0 { self.sector_count as nat } else { self.large_sector_count as nat }
    }
}

/// The boot sector of a FAT12 or FAT16 volume.
#[derive(Debug, Clone, Copy)]
pub struct LegacyHeader {
    pub bpb: BiosParameterBlock,
    pub drive_number: u8,
    pub flags_reserved: u8,
    pub signature: u8,
    pub volume_id_serial_number: u32,
    pub volume_label: [u8; 11],
    pub system_identifier: [u8; 8],
    pub boot_code: [u8; 448],
    pub bootable_partition_signature: [u8; 2],
}

/// The boot sector of a FAT32 volume.
#[derive(Debug, Clone, Copy)]
pub struct Fat32Header {
    pub bpb: BiosParameterBlock,
    pub sectors_per_fat: u32,
    pub flags: u16,
    pub fat_version: u16,
    pub root_cluster: u32,
    pub fsinfo_cluster: u16,
    pub backup_boot_sector_cluster: u16,
    pub reserved: [u8; 12],
    pub drive_number: u8,
    pub flags_reserved: u8,
    pub signature: u8,
    pub volume_id_serial_number: u32,
    pub volume_label: [u8; 11],
    pub system_identifier: [u8; 8],
    pub boot_code: [u8; 420],
    pub bootable_partition_signature: [u8; 2],
}

/// `h` is the FAT12/16 boot sector that the 512 bytes at the start of `b` hold.
pub open spec fn legacy_header_of(b: Seq<u8>, h: LegacyHeader) -> bool {
    &&& bpb_of(b, h.bpb)
    &&& h.drive_number == b[36]
    &&& h.flags_reserved == b[37]
    &&& h.signature == b[38]
    &&& h.volume_id_serial_number == u32_at(b, 39)
    &&& h.volume_label@ == b.subrange(43, 54)
    &&& h.system_identifier@ == b.subrange(54, 62)
    &&& h.boot_code@ == b.subrange(62, 510)
    &&& h.bootable_partition_signature@ == b.subrange(510, 512)
}

/// `h` is the FAT32 boot sector that the 512 bytes at the start of `b` hold.
pub open spec fn fat32_header_of(b: Seq<u8>, h: Fat32Header) -> bool {
    &&& bpb_of(b, h.bpb)
    &&& h.sectors_per_fat == u32_at(b, 36)
    &&& h.flags == u16_at(b, 40)
    &&& h.fat_version == u16_at(b, 42)
    &&& h.root_cluster == u32_at(b, 44)
    &&& h.fsinfo_cluster == u16_at(b, 48)
    &&& h.backup_boot_sector_cluster == u16_at(b, 50)
    &&& h.reserved@ == b.subrange(52, 64)
    &&& h.drive_number == b[64]
    &&& h.flags_reserved == b[65]
    &&& h.signature == b[66]
    &&& h.volume_id_serial_number == u32_at(b, 67)
    &&& h.volume_label@ == b.subrange(71, 82)
    &&& h.system_identifier@ == b.subrange(82, 90)
    &&& h.boot_code@ == b.subrange(90, 510)
    &&& h.bootable_partition_signature@ == b.subrange(510, 512)
}

/// The boot sector of a FAT volume.
#[derive(Debug, Clone, Copy)]
pub enum Header {
    Legacy(LegacyHeader),
    Fat32(Fat32Header),
}

/// Which header boot sector `b` holds, by its cluster count: `Some(true)` for FAT32, from
/// 65525 clusters on; `None` when the cluster size is zero and the clusters cannot be
/// counted.
pub open spec fn header_kind(b: Seq<u8>) -> Option<bool> {
    let spc = b[13];
    let total = if u16_at(b, 19) != 0 { u16_at(b, 19) as nat } else { u32_at(b, 32) as nat };
    if spc == 0 {
        None
    } else {
        Some(total / (spc as nat) >= 65525)
    }
}

/// `h` is the header that boot sector `b` holds: a byte-for-byte decoding of its first 512
/// bytes as the kind of header its cluster count calls for.
pub open spec fn header_of(b: Seq<u8>, h: Header) -> bool {
    match h {
        Header::Legacy(l) => header_kind(b) == Some(false) && legacy_header_of(b, l),
        Header::Fat32(f) => header_kind(b) == Some(true) && fat32_header_of(b, f),
    }
}

/// Decodes the parameter block at the start of `cur`'s bytes, moving past it.
fn decode_bpb(cur: &mut Cursor) -> (r: BiosParameterBlock)
    requires
        old(cur).pos() == 0,
        old(cur).data().len() >= 512,
    ensures
        bpb_of(old(cur).data(), r),
        final(cur).data() == old(cur).data(),
        final(cur).pos() == 36,
{
    let mut jump: [u8; 3] = [0u8; 3];
    cur.read(&mut jump);
    let mut oem_identifier: [u8; 8] = [0u8; 8];
    cur.read(&mut oem_identifier);
    let bytes_per_sector: u16 = cur.read_u16();
    let sectors_per_cluster: u8 = cur.read_u8();
    let reserved_sectors: u16 = cur.read_u16();
    let fat_count: u8 = cur.read_u8();
    let root_directory_entry_count: u16 = cur.read_u16();
    let sector_count: u16 = cur.read_u16();
    let media_descriptor_type: u8 = cur.read_u8();
    let sectors_per_fat: u16 = cur.read_u16();
    let sectors_per_track: u16 = cur.read_u16();
    let head_count: u16 = cur.read_u16();
    let hidden_sector_count: u32 = cur.read_u32();
    let large_sector_count: u32 = cur.read_u32();
    BiosParameterBlock {
        jump,
        oem_identifier,
        bytes_per_sector,
        sectors_per_cluster,
        reserved_sectors,
        fat_count,
        root_directory_entry_count,
        sector_count,
        media_descriptor_type,
        sectors_per_fat,
        sectors_per_track,
        head_count,
        hidden_sector_count,
        large_sector_count,
    }
}

impl Header {
    /// Decodes the boot sector in `buffer`: a FAT32 header from 65525 clusters on, a
    /// FAT12/16 header below; an error when the cluster size is zero.
    pub fn decode(buffer: &[u8]) -> (r: Result<Header, &'static str>)
        requires
            buffer@.len() >= 512,
        ensures
            match header_kind(buffer@) {
                Some(_) => r matches Ok(h) && header_of(buffer@, h),
                None => r matches Err(m) && m@ == "invalid FAT header: zero sectors per cluster"@,
            },
    {
        let mut cur = Cursor::new(buffer);
        let bpb = decode_bpb(&mut cur);
        let total_sectors: u32 = if bpb.sector_count != 0 {
            bpb.sector_count as u32
        } else {
            bpb.large_sector_count
        };
        if bpb.sectors_per_cluster == 0 {
            return Err("invalid FAT header: zero sectors per cluster");
        }
        let total_clusters = total_sectors / bpb.sectors_per_cluster as u32;
        if total_clusters < 65525 {
            let drive_number: u8 = cur.read_u8();
            let flags_reserved: u8 = cur.read_u8();
            let signature: u8 = cur.read_u8();
            let volume_id_serial_number: u32 = cur.read_u32();
            let mut volume_label: [u8; 11] = [0u8; 11];
            cur.read(&mut volume_label);
            let mut system_identifier: [u8; 8] = [0u8; 8];
            cur.read(&mut system_identifier);
            let mut boot_code: [u8; 448] = [0u8; 448];
            cur.read(&mut boot_code);
            let mut bootable_partition_signature: [u8; 2] = [0u8; 2];
            cur.read(&mut bootable_partition_signature);
            Ok(Header::Legacy(LegacyHeader {
                bpb,
                drive_number,
                flags_reserved,
                signature,
                volume_id_serial_number,
                volume_label,
                system_identifier,
                boot_code,
                bootable_partition_signature,
            }))
        } else {
            let sectors_per_fat: u32 = cur.read_u32();
            let flags: u16 = cur.read_u16();
            let fat_version: u16 = cur.read_u16();
            let root_cluster: u32 = cur.read_u32();
            let fsinfo_cluster: u16 = cur.read_u16();
            let backup_boot_sector_cluster: u16 = cur.read_u16();
            let mut reserved: [u8; 12] = [0u8; 12];
            cur.read(&mut reserved);
            let drive_number: u8 = cur.read_u8();
            let flags_reserved: u8 = cur.read_u8();
            let signature: u8 = cur.read_u8();
            let volume_id_serial_number: u32 = cur.read_u32();
            let mut volume_label: [u8; 11] = [0u8; 11];
            cur.read(&mut volume_label);
            let mut system_identifier: [u8; 8] = [0u8; 8];
            cur.read(&mut system_identifier);
            let mut boot_code: [u8; 420] = [0u8; 420];
            cur.read(&mut boot_code);
            let mut bootable_partition_signature: [u8; 2] = [0u8; 2];
            cur.read(&mut bootable_partition_signature);
            Ok(Header::Fat32(Fat32Header {
                bpb,
                sectors_per_fat,
                flags,
                fat_version,
                root_cluster,
                fsinfo_cluster,
                backup_boot_sector_cluster,
                reserved,
                drive_number,
                flags_reserved,
                signature,
                volume_id_serial_number,
                volume_label,
                system_identifier,
                boot_code,
                bootable_partition_signature,
            }))
        }
    }
}

/// The bytes of a read result.
pub open spec fn bytes_result(r: Result<Vec<u8>, &'static str>) -> Result<Seq<u8>, &'static str> {
    match r {
        Ok(v) => Ok(v@),
        Err(e) => Err(e),
    }
}

/// A read of `sectors` sectors at `lba` into a zeroed buffer of `len` bytes, taking the
/// device from `before` to `after`: the bytes the device delivered, or its error.
pub open spec fn sectors_read<D: StorageDevice>(
    before: D,
    after: D,
    lba: u64,
    sectors: u16,
    len: nat,
    r: Result<Seq<u8>, &'static str>,
) -> bool {
    exists|data: Seq<u8>, rr: Result<(), &'static str>| {
        &&& #[trigger] before.read_outcome(&after, lba, sectors, zero_bytes(len), data, rr)
        &&& data.len() == len
        &&& match rr {
            Err(e) => r == Err::<Seq<u8>, &'static str>(e),
            Ok(_) => r == Ok::<Seq<u8>, &'static str>(data),
        }
    }
}

/// Reading the boot sector (sector 0, into a zeroed 4 KiB buffer) takes the device from
/// `before` to `after` and gives the header those bytes hold, an error when they hold none,
/// or the device's error.
pub open spec fn header_read<D: StorageDevice>(before: D, after: D, r: Result<Header, &'static str>) -> bool {
    exists|bytes: Result<Seq<u8>, &'static str>| {
        &&& #[trigger] sectors_read(before, after, 0, 1, 4096, bytes)
        &&& match bytes {
            Err(e) => r == Err::<Header, &'static str>(e),
            Ok(data) => match header_kind(data) {
                Some(_) => r matches Ok(h) && header_of(data, h),
                None => r matches Err(m) && m@ == "invalid FAT header: zero sectors per cluster"@,
            },
        }
    }
}

/// The parameter block of a header.
pub open spec fn header_bpb(h: Header) -> BiosParameterBlock {
    match h {
        Header::Legacy(l) => l.bpb,
        Header::Fat32(f) => f.bpb,
    }
}

/// Opening a filesystem on a device that goes from `before` to `after`: the layout of the
/// boot sector's FAT12/16 parameter block; the device's error; an exFAT volume (zero
/// sector size); a volume whose sector size differs from the device's; or a FAT32 volume.
pub open spec fn opening<D: StorageDevice>(before: D, after: D, r: Result<FatLayout, &'static str>) -> bool {
    exists|mid: D, h: Result<Header, &'static str>| {
        &&& #[trigger] header_read(before, mid, h)
        &&& match h {
            Err(e) => r == Err::<FatLayout, &'static str>(e) && after == mid,
            Ok(hd) => if header_bpb(hd).bytes_per_sector == 0 {
                r == Err::<FatLayout, &'static str>("unsupported FAT type: exFAT") && after == mid
            } else {
                exists|ss: Result<usize, &'static str>| {
                    &&& #[trigger] mid.sector_size_outcome(&after, ss)
                    &&& match ss {
                        Err(e) => r == Err::<FatLayout, &'static str>(e),
                        Ok(n) => if header_bpb(hd).bytes_per_sector as usize != n {
                            r == Err::<FatLayout, &'static str>("FAT sector size != disk sector size")
                        } else if hd is Fat32 {
                            r == Err::<FatLayout, &'static str>("unsupported FAT type: FAT32")
                        } else {
                            r == Ok::<FatLayout, &'static str>(layout_spec(header_bpb(hd)))
                        },
                    }
                }
            },
        }
    }
}

/// The layout of a volume follows its parameter block: the FATs start after the reserved
/// sectors, the root directory after all `fat_count` FATs, and the data area after the
/// root directory's whole sectors.
pub proof fn lemma_layout_of_parameter_block(bpb: BiosParameterBlock)
    requires
        bpb.bytes_per_sector != 0,
    ensures
        layout_spec(bpb).0 == bpb.bytes_per_sector,
        layout_spec(bpb).1 == bpb.sectors_per_cluster,
        layout_spec(bpb).3 == bpb.reserved_sectors,
        layout_spec(bpb).4 == bpb.sectors_per_fat,
        layout_spec(bpb).5 == bpb.reserved_sectors + bpb.fat_count * bpb.sectors_per_fat,
        layout_spec(bpb).6 == bpb.root_directory_entry_count,
        layout_spec(bpb).7 == bpb.reserved_sectors + bpb.fat_count * bpb.sectors_per_fat
            + (bpb.root_directory_entry_count * 32 + bpb.bytes_per_sector - 1) / (bpb.bytes_per_sector as int),
{
    let bps = bpb.bytes_per_sector as int;
    assert((bpb.root_directory_entry_count * 32 + bps - 1) / bps >= 0) by (nonlinear_arith)
        requires bps > 0, bpb.root_directory_entry_count >= 0;
    assert(bpb.fat_count * bpb.sectors_per_fat >= 0) by (nonlinear_arith)
        requires bpb.fat_count >= 0, bpb.sectors_per_fat >= 0;
}

/// Opening a filesystem takes its layout from the boot sector read from sector 0: the
/// root directory starts after the reserved sectors (bytes 14..16) and `fat_count` (byte
/// 16) FATs of `sectors_per_fat` (bytes 22..24) sectors each, and the data area after the
/// root directory's entries (bytes 17..19, 32 bytes each) rounded up to whole sectors of
/// `bytes_per_sector` (bytes 11..13).
pub proof fn lemma_opened_layout<D: StorageDevice>(before: D, after: D, l: FatLayout)
    requires
        opening(before, after, Ok::<FatLayout, &'static str>(l)),
    ensures
        exists|mid: D, data: Seq<u8>| {
            &&& #[trigger] sectors_read(before, mid, 0, 1, 4096, Ok::<Seq<u8>, &'static str>(data))
            &&& data.len() == 4096
            &&& l.0 == u16_at(data, 11) && l.0 > 0
            &&& l.1 == data[13]
            &&& l.3 == u16_at(data, 14)
            &&& l.4 == u16_at(data, 22)
            &&& l.5 == u16_at(data, 14) + data[16] * u16_at(data, 22)
            &&& l.6 == u16_at(data, 17)
            &&& l.7 == l.5 + (u16_at(data, 17) * 32 + u16_at(data, 11) - 1) / (u16_at(data, 11) as int)
        },
{
    let (mid, h) = choose|mid: D, h: Result<Header, &'static str>| {
        &&& #[trigger] header_read(before, mid, h)
        &&& match h {
            Err(e) => Ok::<FatLayout, &'static str>(l) == Err::<FatLayout, &'static str>(e) && after == mid,
            Ok(hd) => if header_bpb(hd).bytes_per_sector == 0 {
                Ok::<FatLayout, &'static str>(l) == Err::<FatLayout, &'static str>("unsupported FAT type: exFAT") && after == mid
            } else {
                exists|ss: Result<usize, &'static str>| {
                    &&& #[trigger] mid.sector_size_outcome(&after, ss)
                    &&& match ss {
                        Err(e) => Ok::<FatLayout, &'static str>(l) == Err::<FatLayout, &'static str>(e),
                        Ok(n) => if header_bpb(hd).bytes_per_sector as usize != n {
                            Ok::<FatLayout, &'static str>(l) == Err::<FatLayout, &'static str>("FAT sector size != disk sector size")
                        } else if hd is Fat32 {
                            Ok::<FatLayout, &'static str>(l) == Err::<FatLayout, &'static str>("unsupported FAT type: FAT32")
                        } else {
                            Ok::<FatLayout, &'static str>(l) == Ok::<FatLayout, &'static str>(layout_spec(header_bpb(hd)))
                        },
                    }
                }
            },
        }
    };
    let hd = h->Ok_0;
    let bpb = header_bpb(hd);
    assert(bpb.bytes_per_sector != 0);
    assert(l == layout_spec(bpb));
    let bytes = choose|bytes: Result<Seq<u8>, &'static str>| {
        &&& #[trigger] sectors_read(before, mid, 0, 1, 4096, bytes)
        &&& match bytes {
            Err(e) => h == Err::<Header, &'static str>(e),
            Ok(data) => match header_kind(data) {
                Some(_) => h matches Ok(x) && header_of(data, x),
                None => h matches Err(m) && m@ == "invalid FAT header: zero sectors per cluster"@,
            },
        }
    };
    let data = bytes->Ok_0;
    assert(header_of(data, hd));
    assert(bpb_of(data, bpb));
    lemma_layout_of_parameter_block(bpb);
    let (dd, rr) = choose|dd: Seq<u8>, rr: Result<(), &'static str>| {
        &&& #[trigger] before.read_outcome(&mid, 0, 1, zero_bytes(4096), dd, rr)
        &&& dd.len() == 4096
        &&& match rr {
            Err(e) => bytes == Err::<Seq<u8>, &'static str>(e),
            Ok(_) => bytes == Ok::<Seq<u8>, &'static str>(dd),
        }
    };
    assert(data.len() == 4096);
    assert(sectors_read(before, mid, 0, 1, 4096, Ok::<Seq<u8>, &'static str>(data)));
}

/// A data cluster number that the chain reader accepts.
pub open spec fn cluster_ok(c: usize) -> bool {
    2 <= c <= 0x1_0000
}

/// The first sector of data cluster `c` in layout `l`.
pub open spec fn cluster_sector(l: FatLayout, c: usize) -> u64 {
    ((c - 2) * l.1 + l.7) as u64
}

/// Data clusters follow one another from the first data sector on: cluster 2 starts at
/// the first data sector, and each next cluster `sectors_per_cluster` sectors later.
pub proof fn lemma_cluster_sectors(l: FatLayout, c: usize)
    requires
        cluster_ok(c),
        c + 1 <= 0x1_0000,
        (c - 1) * l.1 + l.7 <= u64::MAX,
    ensures
        cluster_sector(l, 2) == l.7,
        cluster_sector(l, (c + 1) as usize) == cluster_sector(l, c) + l.1,
{
    assert((c - 2) * l.1 + l.7 <= (c - 1) * l.1 + l.7 && ((c + 1 - 2) * l.1 == (c - 2) * l.1 + l.1)) by (nonlinear_arith)
        requires c >= 2, l.1 >= 0;
    assert(0 * l.1 == 0);
}

/// The first `chunks.len()` clusters of `chain` were read one after the other, each into a
/// zeroed cluster-sized buffer, taking the device through `states`, and gave `chunks`.
pub open spec fn cluster_reads<D: StorageDevice>(states: Seq<D>, chunks: Seq<Seq<u8>>, chain: Seq<usize>, l: FatLayout) -> bool {
    &&& states.len() == chunks.len() + 1
    &&& chunks.len() <= chain.len()
    &&& forall|i: int| 0 <= i < chunks.len() ==> {
        &&& cluster_ok(chain[i])
        &&& (#[trigger] states[i]).read_outcome(&states[i + 1], cluster_sector(l, chain[i]), l.1 as u16,
            zero_bytes(l.0 * l.1), chunks[i], Ok(()))
        &&& chunks[i].len() == l.0 * l.1
    }
}

proof fn lemma_cluster_reads_push<D: StorageDevice>(
    states: Seq<D>,
    chunks: Seq<Seq<u8>>,
    chain: Seq<usize>,
    l: FatLayout,
    after: D,
    chunk: Seq<u8>,
)
    requires
        cluster_reads(states, chunks, chain, l),
        chunks.len() < chain.len(),
        cluster_ok(chain[chunks.len() as int]),
        states.last().read_outcome(&after, cluster_sector(l, chain[chunks.len() as int]), l.1 as u16,
            zero_bytes(l.0 * l.1), chunk, Ok(())),
        chunk.len() == l.0 * l.1,
    ensures
        cluster_reads(states.push(after), chunks.push(chunk), chain, l),
{
    let s2 = states.push(after);
    let c2 = chunks.push(chunk);
    let n = chunks.len() as int;
    assert(s2[n] == states.last() && s2[n + 1] == after && c2[n] == chunk);
    assert forall|i: int| #![trigger s2[i]] #![trigger chain[i]] #![trigger c2[i]] 0 <= i < c2.len() implies {
        &&& cluster_ok(chain[i])
        &&& s2[i].read_outcome(&s2[i + 1], cluster_sector(l, chain[i]), l.1 as u16,
            zero_bytes(l.0 * l.1), c2[i], Ok(()))
        &&& c2[i].len() == l.0 * l.1
    } by {
        if i < n {
            assert(s2[i] == states[i] && s2[i + 1] == states[i + 1] && c2[i] == chunks[i]);
            assert(states[i].read_outcome(&states[i + 1], cluster_sector(l, chain[i]), l.1 as u16,
                zero_bytes(l.0 * l.1), chunks[i], Ok(())));
        }
    }
}

/// `v` holds `chunks` one after the other, each `size` bytes long.
pub open spec fn concatenated(v: Seq<u8>, chunks: Seq<Seq<u8>>, size: nat) -> bool {
    &&& v.len() == chunks.len() * size
    &&& forall|q: int, j: int| 0 <= q < chunks.len() && 0 <= j < size ==> v[q * size + j] == #[trigger] chunks[q][j]
}

/// Reading the clusters of `chain` in order, taking the device from `before` to `after`:
/// their bytes one after the other; "invalid cluster number in cluster chain" at the first
/// cluster number out of range; or the device's error at the first read that fails.
pub open spec fn chain_read<D: StorageDevice>(before: D, after: D, l: FatLayout, chain: Seq<usize>, r: Result<Seq<u8>, &'static str>) -> bool {
    exists|states: Seq<D>, chunks: Seq<Seq<u8>>| {
        &&& #[trigger] cluster_reads(states, chunks, chain, l)
        &&& states[0] == before
        &&& if chunks.len() == chain.len() {
            &&& after == states.last()
            &&& r matches Ok(v) && concatenated(v, chunks, l.0 * l.1)
        } else if !cluster_ok(chain[chunks.len() as int]) {
            after == states.last() && (r matches Err(m) && m@ == "invalid cluster number in cluster chain"@)
        } else {
            exists|data: Seq<u8>, e: &'static str| {
                &&& #[trigger] states.last().read_outcome(&after, cluster_sector(l, chain[chunks.len() as int]),
                    l.1 as u16, zero_bytes(l.0 * l.1), data, Err::<(), &'static str>(e))
                &&& r == Err::<Seq<u8>, &'static str>(e)
            }
        }
    }
}

/// Reading the cluster chain from `first` on a device going from `before` to `after`, with
/// the FAT `fat_before` kept before and `fat_after` after: the FAT is read first where none
/// is kept (its error ends the read); then the chain's error, "cluster chain too large" when
/// its bytes would not fit in memory, or the chain's clusters read in order.
pub open spec fn cluster_chain_read<D: StorageDevice>(
    before: D,
    fat_before: Option<Fat>,
    after: D,
    fat_after: Option<Fat>,
    l: FatLayout,
    first: nat,
    r: Result<Seq<u8>, &'static str>,
) -> bool {
    match fat_before {
        Some(_) => fat_after == fat_before && chain_part(before, after, fat_after, l, first, r),
        None => exists|mid: D, fr: Result<Seq<u8>, &'static str>| {
            &&& #[trigger] sectors_read(before, mid, l.3 as u64, l.4 as u16, l.0 * l.4, fr)
            &&& match fr {
                Err(e) => r == Err::<Seq<u8>, &'static str>(e) && after == mid && fat_after is None,
                Ok(d) => (fat_after matches Some(f) && f.data_spec() == d && f.ty_spec() == FatType::Fat16)
                    && chain_part(mid, after, fat_after, l, first, r),
            }
        },
    }
}

/// The part of a chain read after the FAT `fat` is at hand, with the device going from
/// `before` to `after`: the chain's error, "cluster chain too large" when its bytes would not
/// fit in memory, or the chain's clusters read in order.
pub open spec fn chain_part<D: StorageDevice>(
    before: D,
    after: D,
    fat: Option<Fat>,
    l: FatLayout,
    first: nat,
    r: Result<Seq<u8>, &'static str>,
) -> bool {
    fat matches Some(f) && match fat16_chain(f.data_spec(), first, fat16_entry_count(f.data_spec().len()) + 1) {
        Err(e) => after == before && (r matches Err(m) && m@ == e@),
        Ok(chain) => if chain.len() * (l.0 * l.1) > usize::MAX {
            after == before && (r matches Err(m) && m@ == "cluster chain too large"@)
        } else {
            chain_read(before, after, l, chain, r)
        },
    }
}

/// The entries that parsing directory bytes `bytes` gives, as `parse_directory` returns
/// them: the listing of `directory_spec`, none with a long name, or an error when the
/// listing runs past the end.
pub open spec fn listing(bytes: Seq<u8>, r: Result<Vec<FatDirectoryEntry>, &'static str>) -> bool {
    match directory_spec(bytes, 0) {
        Some(entries) => r matches Ok(v) && v@.map_values(|e: FatDirectoryEntry| e.view()) == entries
            && forall|i: int| 0 <= i < v@.len() ==> (#[trigger] v@[i]).long_name is None,
        None => r is Err,
    }
}

/// The views of a listing's entries, or its error.
pub open spec fn entries_result(r: Result<Vec<FatDirectoryEntry>, &'static str>) -> Result<Seq<FatDirectoryEntryView>, &'static str> {
    match r {
        Ok(v) => Ok(v@.map_values(|e: FatDirectoryEntry| e.view())),
        Err(e) => Err(e),
    }
}

/// The listing of directory bytes `bytes`, by the entries' views.
pub open spec fn view_listing(bytes: Seq<u8>, r: Result<Seq<FatDirectoryEntryView>, &'static str>) -> bool {
    match directory_spec(bytes, 0) {
        Some(entries) => r == Ok::<Seq<FatDirectoryEntryView>, &'static str>(entries),
        None => r is Err,
    }
}

/// Listing directory `dir` (the root directory for `None`) on a device going from `d0` to
/// `d1`, with the FAT kept going from `f0` to `f1`: a non-directory is refused untouched;
/// a directory's cluster chain is read and parsed; the root directory's sectors, from its
/// first sector on, are read and parsed, unless they are not whole sectors.
pub open spec fn raw_listing<D: StorageDevice>(
    d0: D,
    f0: Option<Fat>,
    d1: D,
    f1: Option<Fat>,
    l: FatLayout,
    dir: Option<FatDirectoryEntryView>,
    r: Result<Seq<FatDirectoryEntryView>, &'static str>,
) -> bool {
    match dir {
        Some(v) => if !bit8(v.1, 4) {
            (r matches Err(m) && m@ == "list_directory_raw: not a directory"@) && d1 == d0 && f1 == f0
        } else {
            exists|cr: Result<Seq<u8>, &'static str>| {
                &&& #[trigger] cluster_chain_read(d0, f0, d1, f1, l, v.8 as nat, cr)
                &&& match cr {
                    Err(e) => r == Err::<Seq<FatDirectoryEntryView>, &'static str>(e),
                    Ok(bytes) => view_listing(bytes, r),
                }
            }
        },
        None => if (l.6 * 32) % l.0 != 0 {
            (r matches Err(m) && m@ == "root directory size is not a multiple of the sector size"@) && d1 == d0 && f1 == f0
        } else {
            &&& f1 == f0
            &&& exists|br: Result<Seq<u8>, &'static str>| {
                &&& #[trigger] sectors_read(d0, d1, l.5 as u64, ((l.6 * 32) / l.0) as u16, l.0 * ((l.6 * 32) / l.0), br)
                &&& match br {
                    Err(e) => r == Err::<Seq<FatDirectoryEntryView>, &'static str>(e),
                    Ok(bytes) => view_listing(bytes, r),
                }
            }
        },
    }
}

/// The entry view of an optional entry.
pub open spec fn dir_view(dir: Option<FatDirectoryEntry>) -> Option<FatDirectoryEntryView> {
    match dir {
        Some(d) => Some(d.view()),
        None => None,
    }
}

/// Reading the file of entry `e` on a device going from `d0` to `d1`, with the FAT kept
/// going from `f0` to `f1`: a volume label or directory is refused untouched; otherwise the
/// file's cluster chain is read and cut to the file's size, which must not exceed it.
pub open spec fn file_read<D: StorageDevice>(
    d0: D,
    f0: Option<Fat>,
    d1: D,
    f1: Option<Fat>,
    l: FatLayout,
    e: FatDirectoryEntryView,
    r: Result<Seq<u8>, &'static str>,
) -> bool {
    if bit8(e.1, 3) || bit8(e.1, 4) {
        (r matches Err(m) && m@ == "not a file"@) && d1 == d0 && f1 == f0
    } else {
        exists|cr: Result<Seq<u8>, &'static str>| {
            &&& #[trigger] cluster_chain_read(d0, f0, d1, f1, l, e.8 as nat, cr)
            &&& match cr {
                Err(x) => r == Err::<Seq<u8>, &'static str>(x),
                Ok(bytes) => if e.9 > bytes.len() {
                    r matches Err(m) && m@ == "invalid file size"@
                } else {
                    r == Ok::<Seq<u8>, &'static str>(bytes.subrange(0, e.9 as int))
                },
            }
        }
    }
}

/// Entry `k` of `list` is the first whose name is `name` without regard to case.
pub open spec fn named_at(list: Seq<FatDirectoryEntryView>, name: Seq<char>, k: int) -> bool {
    &&& 0 <= k < list.len()
    &&& same_name(list[k].0, name)
    &&& forall|j: int| 0 <= j < k ==> !same_name(#[trigger] list[j].0, name)
}

/// One step of a path walk from listing `list` with path piece `token`, the device going
/// from `d0` to `d1` and the FAT kept from `f0` to `f1`: an empty piece changes nothing; any
/// other piece names an entry of `list`, whose listing `next` is.
pub open spec fn walk_step<D: StorageDevice>(
    d0: D,
    f0: Option<Fat>,
    d1: D,
    f1: Option<Fat>,
    l: FatLayout,
    list: Seq<FatDirectoryEntryView>,
    token: Seq<char>,
    next: Seq<FatDirectoryEntryView>,
) -> bool {
    if token.len() == 0 {
        d1 == d0 && f1 == f0 && next == list
    } else {
        exists|k: int| #[trigger] named_at(list, token, k)
            && raw_listing(d0, f0, d1, f1, l, Some(list[k]), Ok::<Seq<FatDirectoryEntryView>, &'static str>(next))
    }
}

/// A path walk through the first `lists.len() - 1` pieces of `tokens`: the root directory
/// listed first, then one step per piece, taking the device through `devs` and the kept FAT
/// through `fats`.
pub open spec fn walk<D: StorageDevice>(
    devs: Seq<D>,
    fats: Seq<Option<Fat>>,
    lists: Seq<Seq<FatDirectoryEntryView>>,
    tokens: Seq<Seq<char>>,
    l: FatLayout,
) -> bool {
    &&& 1 <= lists.len() <= tokens.len() + 1
    &&& devs.len() == lists.len() + 1
    &&& fats.len() == lists.len() + 1
    &&& raw_listing(devs[0], fats[0], devs[1], fats[1], l, None, Ok::<Seq<FatDirectoryEntryView>, &'static str>(lists[0]))
    &&& forall|j: int| 0 <= j < lists.len() - 1 ==> walk_step(devs[j + 1], fats[j + 1], devs[j + 2], fats[j + 2], l,
        #[trigger] lists[j], tokens[j], lists[j + 1])
}

/// A walk step that fails on path piece `token`: no entry of `list` has that name, or
/// listing the entry named fails.
pub open spec fn walk_fails<D: StorageDevice>(
    d0: D,
    f0: Option<Fat>,
    d1: D,
    f1: Option<Fat>,
    l: FatLayout,
    list: Seq<FatDirectoryEntryView>,
    token: Seq<char>,
    r: Result<Seq<FatDirectoryEntryView>, &'static str>,
) -> bool {
    ||| (forall|k: int| 0 <= k < list.len() ==> !same_name(#[trigger] list[k].0, token)) && d1 == d0 && f1 == f0
        && (r matches Err(m) && m@ == "no such file or directory"@)
    ||| exists|k: int| #[trigger] named_at(list, token, k) && raw_listing(d0, f0, d1, f1, l, Some(list[k]), r) && r is Err
}

/// Where a path walk ends, the device going from `d0` to `d1` and the kept FAT from `f0` to
/// `f1`: the root listing fails; or the walk through some pieces succeeds and then, where
/// pieces are left, the next one fails; or the walk through all pieces succeeds with the
/// last listing.
pub open spec fn walk_outcome<D: StorageDevice>(
    d0: D,
    f0: Option<Fat>,
    d1: D,
    f1: Option<Fat>,
    l: FatLayout,
    tokens: Seq<Seq<char>>,
    r: Result<Seq<FatDirectoryEntryView>, &'static str>,
) -> bool {
    ||| raw_listing(d0, f0, d1, f1, l, None, r) && r is Err
    ||| exists|devs: Seq<D>, fats: Seq<Option<Fat>>, lists: Seq<Seq<FatDirectoryEntryView>>| {
        &&& #[trigger] walk(devs, fats, lists, tokens, l)
        &&& devs[0] == d0
        &&& fats[0] == f0
        &&& if lists.len() - 1 == tokens.len() {
            d1 == devs.last() && f1 == fats.last() && r == Ok::<Seq<FatDirectoryEntryView>, &'static str>(lists.last())
        } else {
            walk_fails(devs.last(), fats.last(), d1, f1, l, lists.last(), tokens[lists.len() - 1], r)
        }
    }
}

/// The position of the last non-empty piece of `tokens`.
pub open spec fn last_piece(tokens: Seq<Seq<char>>) -> int {
    choose|i: int| 0 <= i < tokens.len() && tokens[i].len() > 0
        && forall|j: int| i < j < tokens.len() ==> (#[trigger] tokens[j]).len() == 0
}

/// Reading the file at path pieces `tokens` (with a non-empty last piece at `last`): the
/// walk through the pieces before the last fails, or it succeeds and then no entry of the
/// last listing has the last piece's name, or the first entry that has it is read as a
/// file.
pub open spec fn path_file_read<D: StorageDevice>(
    d0: D,
    f0: Option<Fat>,
    d1: D,
    f1: Option<Fat>,
    l: FatLayout,
    tokens: Seq<Seq<char>>,
    last: int,
    r: Result<Seq<u8>, &'static str>,
) -> bool {
    ||| exists|e: &'static str| raw_listing(d0, f0, d1, f1, l, None, Err::<Seq<FatDirectoryEntryView>, &'static str>(e))
        && r == Err::<Seq<u8>, &'static str>(e)
    ||| exists|devs: Seq<D>, fats: Seq<Option<Fat>>, lists: Seq<Seq<FatDirectoryEntryView>>| {
        &&& #[trigger] walk(devs, fats, lists, tokens.subrange(0, last), l)
        &&& devs[0] == d0
        &&& fats[0] == f0
        &&& if lists.len() - 1 < last {
            exists|e: &'static str| walk_fails(devs.last(), fats.last(), d1, f1, l, lists.last(), tokens[lists.len() - 1],
                Err::<Seq<FatDirectoryEntryView>, &'static str>(e)) && r == Err::<Seq<u8>, &'static str>(e)
        } else if forall|k: int| 0 <= k < lists.last().len() ==> !same_name(#[trigger] lists.last()[k].0, tokens[last]) {
            d1 == devs.last() && f1 == fats.last() && (r matches Err(m) && m@ == "no such file or directory"@)
        } else {
            exists|k: int| #[trigger] named_at(lists.last(), tokens[last], k)
                && file_read(devs.last(), fats.last(), d1, f1, l, lists.last()[k], r)
        }
    }
}

/// A FAT filesystem on a storage device.
pub struct FatFs<'a, D: StorageDevice> {
    storage_device: &'a mut D,
    bytes_per_sector: usize,
    sectors_per_cluster: usize,
    total_sectors: usize,
    first_fat_sector: usize,
    sectors_per_fat: usize,
    root_cluster: usize,
    root_directory_entry_count: usize,
    first_data_sector: usize,
    fat: Option<Fat>,
}

/// The on-disk layout of a FAT12/16 volume: bytes per sector, sectors per cluster, total
/// sectors, first FAT sector, sectors per FAT, first root directory sector, root directory
/// entries, first data sector.
pub type FatLayout = (nat, nat, nat, nat, nat, nat, nat, nat);

/// The layout of a FAT12/16 volume with parameter block `bpb`: the FATs follow the
/// reserved sectors, the root directory follows the FATs, and the data area follows the
/// root directory.
pub open spec fn layout_spec(bpb: BiosParameterBlock) -> FatLayout {
    let bps = bpb.bytes_per_sector as nat;
    let root_dir_sectors = ((bpb.root_directory_entry_count as int * 32 + (bps as int - 1)) / (bps as int)) as nat;
    let first_data_sector = bpb.reserved_sectors as nat + bpb.fat_count as nat * bpb.sectors_per_fat as nat + root_dir_sectors;
    (bps, bpb.sectors_per_cluster as nat, bpb.total_sectors(), bpb.reserved_sectors as nat,
        bpb.sectors_per_fat as nat, (first_data_sector - root_dir_sectors) as nat,
        bpb.root_directory_entry_count as nat, first_data_sector as nat)
}

impl<'a, D: StorageDevice> FatFs<'a, D> {
    /// The layout the filesystem works with.
    pub closed spec fn layout(&self) -> FatLayout {
        (self.bytes_per_sector as nat, self.sectors_per_cluster as nat, self.total_sectors as nat,
            self.first_fat_sector as nat, self.sectors_per_fat as nat, self.root_cluster as nat,
            self.root_directory_entry_count as nat, self.first_data_sector as nat)
    }

    /// The FAT read so far, if any.
    pub closed spec fn fat_spec(&self) -> Option<Fat> {
        self.fat
    }

    /// The storage device.
    pub closed spec fn device(&self) -> D {
        *self.storage_device
    }

    /// The layout comes from a FAT12/16 parameter block with a nonzero sector size and
    /// cluster size.
    pub closed spec fn wf(&self) -> bool {
        &&& exists|bpb: BiosParameterBlock| #[trigger] layout_spec(bpb) == self.layout()
            && bpb.bytes_per_sector != 0 && bpb.sectors_per_cluster != 0
        &&& 0 < self.bytes_per_sector <= 0xFFFF
        &&& 0 < self.sectors_per_cluster <= 0xFF
        &&& self.sectors_per_fat <= 0xFFFF
        &&& self.root_directory_entry_count <= 0xFFFF
        &&& self.first_data_sector <= 0x200_0000
        &&& self.root_cluster <= self.first_data_sector
        &&& self.fat matches Some(f) ==> f.ty_spec() == FatType::Fat16
    }

    /// Opens the FAT12/16 filesystem on `storage_device`. Fails with the device's error,
    /// on an exFAT volume (zero sector size), when the volume's sector size differs from
    /// the device's, and on a FAT32 volume.
    pub fn wrap(storage_device: &'a mut D) -> (r: Result<Self, &'static str>)
        ensures
            r matches Ok(fs) ==> fs.wf() && fs.fat_spec() is None,
            r matches Ok(fs) ==> opening(*old(storage_device), fs.device(), Ok::<FatLayout, &'static str>(fs.layout())),
            r matches Err(e) ==> exists|after: D| #[trigger] opening(*old(storage_device), after, Err::<FatLayout, &'static str>(e)),
    {
        let ghost given = *storage_device;
        let mut fs = Self {
            storage_device,
            bytes_per_sector: 0,
            sectors_per_cluster: 0,
            total_sectors: 0,
            first_fat_sector: 0,
            sectors_per_fat: 0,
            root_cluster: 0,
            root_directory_entry_count: 0,
            first_data_sector: 0,
            fat: None,
        };
        proof {
            assert(fs.device() == given);
        }
        match fs.init() {
            Ok(()) => {},
            Err(e) => {
                let res: Result<Self, &'static str> = Err(e);
                proof {
                    let w = fs.device();
                    assert(given == *old(storage_device));
                    assert(res matches Err(x) ==> opening(given, w, Err::<FatLayout, &'static str>(x)));
                }
                return res;
            },
        }
        Ok(fs)
    }

    /// Reads the boot sector and sets up the layout from it.
    fn init(&mut self) -> (r: Result<(), &'static str>)
        requires
            old(self).fat_spec() is None,
        ensures
            r is Ok ==> final(self).wf(),
            final(self).fat_spec() is None,
            opening(old(self).device(), final(self).device(), match r {
                Ok(_) => Ok::<FatLayout, &'static str>(final(self).layout()),
                Err(e) => Err::<FatLayout, &'static str>(e),
            }),
    {
        let ghost before = self.device();
        let hr = Self::read_header(self.storage_device);
        let ghost mid = self.device();
        proof {
            assert(header_read(before, mid, hr));
        }
        let header = match hr {
            Ok(h) => h,
            Err(e) => {
                proof {
                    assert(opening(before, self.device(), Err::<FatLayout, &'static str>(e)));
                }
                return Err(e);
            },
        };
        let bpb = match header {
            Header::Legacy(l) => l.bpb,
            Header::Fat32(f) => f.bpb,
        };
        proof {
            assert(bpb == header_bpb(header));
        }
        if bpb.bytes_per_sector == 0 {
            proof {
                assert(opening(before, self.device(), Err::<FatLayout, &'static str>("unsupported FAT type: exFAT")));
            }
            return Err("unsupported FAT type: exFAT");
        }
        let bytes_per_sector = bpb.bytes_per_sector as usize;
        let ss = self.storage_device.sector_size();
        proof {
            assert(mid.sector_size_outcome(&self.device(), ss));
        }
        let sector_size = match ss {
            Ok(s) => s,
            Err(e) => {
                proof {
                    assert(opening(before, self.device(), Err::<FatLayout, &'static str>(e)));
                }
                return Err(e);
            },
        };
        if bytes_per_sector != sector_size {
            proof {
                assert(opening(before, self.device(), Err::<FatLayout, &'static str>("FAT sector size != disk sector size")));
            }
            return Err("FAT sector size != disk sector size");
        }
        if let Header::Fat32(_) = header {
            proof {
                assert(opening(before, self.device(), Err::<FatLayout, &'static str>("unsupported FAT type: FAT32")));
            }
            return Err("unsupported FAT type: FAT32");
        }
        let ghost after = self.device();
        let reserved_sectors = bpb.reserved_sectors as usize;
        let fat_count = bpb.fat_count as usize;
        let sectors_per_fat = bpb.sectors_per_fat as usize;
        let root_directory_entry_count = bpb.root_directory_entry_count as usize;
        let root_dir_sectors = ((root_directory_entry_count * 32) + (bytes_per_sector - 1)) / bytes_per_sector;
        let total_sectors = if bpb.sector_count != 0 {
            bpb.sector_count as usize
        } else {
            bpb.large_sector_count as usize
        };
        proof {
            assert(root_dir_sectors <= 0x20_0000) by (nonlinear_arith)
                requires
                    root_directory_entry_count <= 0xFFFF,
                    bytes_per_sector >= 1,
                    root_dir_sectors as int == ((root_directory_entry_count as int * 32) + (bytes_per_sector as int - 1)) / (bytes_per_sector as int);
            assert(fat_count * sectors_per_fat <= 0xFF * 0xFFFF) by (nonlinear_arith)
                requires
                    fat_count <= 0xFF,
                    sectors_per_fat <= 0xFFFF;
        }
        let first_data_sector = reserved_sectors + (fat_count * sectors_per_fat) + root_dir_sectors;
        self.bytes_per_sector = bytes_per_sector;
        self.sectors_per_cluster = bpb.sectors_per_cluster as usize;
        self.sectors_per_fat = sectors_per_fat;
        self.root_directory_entry_count = root_directory_entry_count;
        self.total_sectors = total_sectors;
        self.first_fat_sector = reserved_sectors;
        self.first_data_sector = first_data_sector;
        self.root_cluster = first_data_sector - root_dir_sectors;
        proof {
            assert(layout_spec(bpb) == self.layout());
            assert(self.device() == after);
            assert(opening(before, self.device(), Ok::<FatLayout, &'static str>(self.layout())));
        }
        Ok(())
    }

    /// Reads and decodes the boot sector of `storage_device`.
    fn read_header(storage_device: &mut D) -> (r: Result<Header, &'static str>)
        ensures
            header_read(*old(storage_device), *final(storage_device), r),
            r matches Ok(h) ==> exists|b: Seq<u8>| header_of(b, h),
    {
        let mut buffer: Vec<u8> = vec![0u8; 4096];
        proof {
            assert(buffer@ =~= zero_bytes(4096));
        }
        let ghost zeros = buffer@;
        let rr = storage_device.read(buffer.as_mut_slice(), 0, 1);
        proof {
            assert(old(storage_device).read_outcome(&*storage_device, 0, 1, zeros, buffer@, rr));
        }
        match rr {
            Ok(()) => {},
            Err(e) => {
                proof {
                    assert(sectors_read(*old(storage_device), *storage_device, 0, 1, 4096, Err(e)));
                }
                return Err(e);
            },
        }
        proof {
            assert(sectors_read(*old(storage_device), *storage_device, 0, 1, 4096, Ok(buffer@)));
        }
        Header::decode(buffer.as_slice())
    }

    /// Reads one sector.
    fn read_sector(&mut self, sector: usize) -> (r: Result<Vec<u8>, &'static str>)
        requires
            old(self).wf(),
        ensures
            final(self).layout() == old(self).layout(),
            final(self).fat_spec() == old(self).fat_spec(),
            final(self).wf(),
            r matches Ok(v) ==> v@.len() == old(self).layout().0,
            sectors_read(old(self).device(), final(self).device(), sector as u64, 1, old(self).layout().0, bytes_result(r)),
    {
        let mut buffer: Vec<u8> = vec![0u8; self.bytes_per_sector];
        proof {
            assert(buffer@ =~= zero_bytes(self.bytes_per_sector as nat));
        }
        let ghost zeros = buffer@;
        let rr = self.storage_device.read(buffer.as_mut_slice(), sector as u64, 1);
        proof {
            assert(old(self).device().read_outcome(&self.device(), sector as u64, 1, zeros, buffer@, rr));
        }
        match rr {
            Ok(()) => {},
            Err(e) => return Err(e),
        }
        Ok(buffer)
    }

    /// Reads `count` sectors starting at `start_sector`. The device is asked for the
    /// count truncated to 16 bits.
    fn read_sectors(&mut self, start_sector: usize, count: usize) -> (r: Result<Vec<u8>, &'static str>)
        requires
            old(self).wf(),
        ensures
            final(self).layout() == old(self).layout(),
            final(self).fat_spec() == old(self).fat_spec(),
            final(self).wf(),
            r matches Ok(v) ==> v@.len() == old(self).layout().0 * count,
            old(self).layout().0 * count > usize::MAX ==> r == Err::<Vec<u8>, &'static str>("read too large")
                && final(self).device() == old(self).device(),
            old(self).layout().0 * count <= usize::MAX ==> sectors_read(old(self).device(), final(self).device(),
                start_sector as u64, count as u16, old(self).layout().0 * (count as nat), bytes_result(r)),
    {
        let size = match self.bytes_per_sector.checked_mul(count) {
            Some(size) => size,
            None => return Err("read too large"),
        };
        let mut buffer: Vec<u8> = vec![0u8; size];
        proof {
            assert(buffer@ =~= zero_bytes(size as nat));
        }
        let ghost zeros = buffer@;
        let rr = self.storage_device.read(buffer.as_mut_slice(), start_sector as u64, count as u16);
        proof {
            assert(old(self).device().read_outcome(&self.device(), start_sector as u64, count as u16, zeros, buffer@, rr));
        }
        match rr {
            Ok(()) => {},
            Err(e) => return Err(e),
        }
        Ok(buffer)
    }

    /// The first sector of data cluster `cluster` (clusters are numbered from 2).
    fn first_sector_of_cluster(&self, cluster: usize) -> (r: usize)
        requires
            cluster >= 2,
            (cluster - 2) * self.layout().1 + self.layout().7 <= usize::MAX,
        ensures
            r == (cluster - 2) * self.layout().1 + self.layout().7,
    {
        ((cluster - 2) * self.sectors_per_cluster) + self.first_data_sector
    }

    /// Reads one cluster.
    fn read_cluster(&mut self, cluster: usize) -> (r: Result<Vec<u8>, &'static str>)
        requires
            old(self).wf(),
            cluster >= 2,
            cluster <= 0x1_0000,
        ensures
            final(self).layout() == old(self).layout(),
            final(self).fat_spec() == old(self).fat_spec(),
            final(self).wf(),
            r matches Ok(v) ==> v@.len() == old(self).layout().0 * old(self).layout().1,
            sectors_read(old(self).device(), final(self).device(),
                ((cluster - 2) * old(self).layout().1 + old(self).layout().7) as u64, old(self).layout().1 as u16,
                old(self).layout().0 * old(self).layout().1, bytes_result(r)),
    {
        proof {
            assert(self.bytes_per_sector * self.sectors_per_cluster <= 0xFFFF * 0xFF) by (nonlinear_arith)
                requires
                    self.bytes_per_sector <= 0xFFFF,
                    self.sectors_per_cluster <= 0xFF;
            assert((cluster - 2) * self.sectors_per_cluster <= 0x1_0000 * 0xFF) by (nonlinear_arith)
                requires
                    cluster - 2 <= 0x1_0000,
                    self.sectors_per_cluster <= 0xFF;
        }
        let mut buffer: Vec<u8> = vec![0u8; self.bytes_per_sector * self.sectors_per_cluster];
        proof {
            assert(buffer@ =~= zero_bytes((self.bytes_per_sector * self.sectors_per_cluster) as nat));
        }
        let ghost zeros = buffer@;
        let sector = self.first_sector_of_cluster(cluster);
        let rr = self.storage_device.read(buffer.as_mut_slice(), sector as u64, self.sectors_per_cluster as u16);
        proof {
            assert(old(self).device().read_outcome(&self.device(), sector as u64, self.sectors_per_cluster as u16,
                zeros, buffer@, rr));
        }
        match rr {
            Ok(()) => {},
            Err(e) => return Err(e),
        }
        Ok(buffer)
    }

    /// Reads one cluster into the front of `buffer`; fails when `buffer` is shorter than
    /// a cluster.
    fn read_cluster_into(&mut self, cluster: usize, buffer: &mut [u8]) -> (r: Result<(), &'static str>)
        requires
            old(self).wf(),
            cluster >= 2,
            cluster <= 0x1_0000,
        ensures
            final(self).layout() == old(self).layout(),
            final(self).fat_spec() == old(self).fat_spec(),
            final(self).wf(),
            final(buffer)@.len() == old(buffer)@.len(),
            old(buffer)@.len() < old(self).layout().0 * old(self).layout().1 ==> {
                &&& r == Err::<(), &'static str>("buffer too small")
                &&& final(buffer)@ == old(buffer)@
                &&& final(self).device() == old(self).device()
            },
            old(buffer)@.len() >= old(self).layout().0 * old(self).layout().1 ==> old(self).device().read_outcome(
                &final(self).device(), ((cluster - 2) * old(self).layout().1 + old(self).layout().7) as u64,
                old(self).layout().1 as u16, old(buffer)@, final(buffer)@, r),
    {
        proof {
            assert(self.bytes_per_sector * self.sectors_per_cluster <= 0xFFFF * 0xFF) by (nonlinear_arith)
                requires
                    self.bytes_per_sector <= 0xFFFF,
                    self.sectors_per_cluster <= 0xFF;
            assert((cluster - 2) * self.sectors_per_cluster <= 0x1_0000 * 0xFF) by (nonlinear_arith)
                requires
                    cluster - 2 <= 0x1_0000,
                    self.sectors_per_cluster <= 0xFF;
        }
        if buffer.len() < self.sectors_per_cluster * self.bytes_per_sector {
            return Err("buffer too small");
        }
        let sector = self.first_sector_of_cluster(cluster);
        self.storage_device.read(buffer, sector as u64, self.sectors_per_cluster as u16)
    }

    /// Reads the first FAT.
    fn read_fat(&mut self) -> (r: Result<Fat, &'static str>)
        requires
            old(self).wf(),
        ensures
            final(self).layout() == old(self).layout(),
            final(self).fat_spec() == old(self).fat_spec(),
            final(self).wf(),
            r matches Ok(f) ==> f.ty_spec() == FatType::Fat16,
            sectors_read(old(self).device(), final(self).device(), old(self).layout().3 as u64,
                old(self).layout().4 as u16, old(self).layout().0 * old(self).layout().4, match r {
                    Ok(f) => Ok::<Seq<u8>, &'static str>(f.data_spec()),
                    Err(e) => Err::<Seq<u8>, &'static str>(e),
                }),
    {
        proof {
            assert(self.bytes_per_sector * self.sectors_per_fat <= 0xFFFF * 0xFFFF) by (nonlinear_arith)
                requires
                    self.bytes_per_sector <= 0xFFFF,
                    self.sectors_per_fat <= 0xFFFF;
        }
        let data = match self.read_sectors(self.first_fat_sector, self.sectors_per_fat) {
            Ok(d) => d,
            Err(e) => return Err(e),
        };
        Ok(Fat { data, ty: FatType::Fat16 })
    }

    /// The contents of the cluster chain that starts at `first_cluster`, cluster after
    /// cluster. The FAT is read on first use and kept.
    #[verifier::rlimit(40)]
    pub fn read_cluster_chain(&mut self, first_cluster: usize) -> (r: Result<Vec<u8>, &'static str>)
        requires
            old(self).wf(),
        ensures
            final(self).layout() == old(self).layout(),
            final(self).wf(),
            old(self).fat_spec() is Some ==> final(self).fat_spec() == old(self).fat_spec(),
            r is Ok ==> final(self).fat_spec() is Some,
            r matches Ok(v) ==> (final(self).fat_spec() matches Some(f)
                && fat16_chain(f.data_spec(), first_cluster as nat, fat16_entry_count(f.data_spec().len()) + 1)
                    matches Ok(chain)
                && v@.len() == chain.len() * (old(self).layout().0 * old(self).layout().1)),
            cluster_chain_read(old(self).device(), old(self).fat_spec(), final(self).device(), final(self).fat_spec(),
                old(self).layout(), first_cluster as nat, bytes_result(r)),
    {
        let ghost l = self.layout();
        let ghost mut mid0: D = self.device();
        let ghost mut fr0: Result<Seq<u8>, &'static str> = Ok(Seq::empty());
        if self.fat.is_none() {
            let ghost before = self.device();
            let fat = match self.read_fat() {
                Ok(f) => f,
                Err(e) => {
                    proof {
                        let fr = Err::<Seq<u8>, &'static str>(e);
                        assert(sectors_read(before, self.device(), l.3 as u64, l.4 as u16, l.0 * l.4, fr));
                        assert(cluster_chain_read(old(self).device(), old(self).fat_spec(), self.device(), self.fat_spec(),
                            l, first_cluster as nat, Err::<Seq<u8>, &'static str>(e)));
                    }
                    return Err(e);
                },
            };
            proof {
                assert(sectors_read(before, self.device(), l.3 as u64, l.4 as u16,
                    l.0 * l.4, Ok::<Seq<u8>, &'static str>(fat.data_spec())));
                mid0 = self.device();
                fr0 = Ok::<Seq<u8>, &'static str>(fat.data_spec());
            }
            self.fat = Some(fat);
        }
        let ghost fat_now = self.fat;
        proof {
            assert(mid0 == self.device());
            if old(self).fat_spec() is None {
                assert(sectors_read(old(self).device(), mid0, l.3 as u64, l.4 as u16, l.0 * l.4, fr0));
                assert(fr0 matches Ok(d) && self.fat_spec() matches Some(f) && f.data_spec() == d);
            }
        }
        let chain = match &self.fat {
            Some(fat) => match fat.get_cluster_chain(first_cluster) {
                Ok(c) => c,
                Err(e) => {
                    proof {
                        assert(cluster_chain_read(old(self).device(), old(self).fat_spec(), self.device(), self.fat_spec(),
                            l, first_cluster as nat, Err::<Seq<u8>, &'static str>(e)));
                    }
                    return Err(e);
                },
            },
            None => return Err("FAT not loaded"),
        };
        proof {
            assert(self.sectors_per_cluster * self.bytes_per_sector <= 0xFFFF * 0xFF) by (nonlinear_arith)
                requires
                    self.bytes_per_sector <= 0xFFFF,
                    self.sectors_per_cluster <= 0xFF;
        }
        let cluster_size = self.sectors_per_cluster * self.bytes_per_sector;
        proof {
            vstd::arithmetic::mul::lemma_mul_is_commutative(self.sectors_per_cluster as int, self.bytes_per_sector as int);
        }
        let total = match chain.len().checked_mul(cluster_size) {
            Some(t) => t,
            None => {
                proof {
                    assert(cluster_chain_read(old(self).device(), old(self).fat_spec(), self.device(), self.fat_spec(),
                        l, first_cluster as nat, Err::<Seq<u8>, &'static str>("cluster chain too large")));
                }
                return Err("cluster chain too large");
            },
        };
        let mut buffer: Vec<u8> = vec![0u8; total];
        let ghost mut states: Seq<D> = seq![self.device()];
        let ghost mut chunks: Seq<Seq<u8>> = seq![];
        let mut i: usize = 0;
        while i < chain.len()
            invariant
                self.wf(),
                self.layout() == l,
                l == old(self).layout(),
                self.fat_spec() == fat_now,
                old(self).fat_spec() is Some ==> fat_now == old(self).fat_spec() && mid0 == old(self).device(),
                fat_now matches Some(f) && fat16_chain(f.data_spec(), first_cluster as nat, fat16_entry_count(f.data_spec().len()) + 1)
                    == Ok::<Seq<usize>, &'static str>(chain@),
                i <= chain@.len(),
                buffer@.len() == total,
                total == chain@.len() * cluster_size,
                cluster_size == self.bytes_per_sector * self.sectors_per_cluster,
                cluster_size == l.0 * l.1,
                cluster_size <= 0xFFFF * 0xFF,
                old(self).fat_spec() is None ==> (sectors_read(old(self).device(), mid0, l.3 as u64,
                    l.4 as u16, l.0 * l.4, fr0)
                    && (fr0 matches Ok(d) && (fat_now matches Some(f) && f.data_spec() == d))),
                cluster_reads(states, chunks, chain@, l),
                chunks.len() == i,
                states[0] == mid0,
                states.last() == self.device(),
                forall|q: int, j: int| 0 <= q < i && 0 <= j < cluster_size ==> buffer@[q * cluster_size + j] == #[trigger] chunks[q][j],
            decreases chain@.len() - i,
        {
            let cluster = chain[i];
            if cluster < 2 || cluster > 0x1_0000 {
                proof {
                    assert(chain_read(mid0, self.device(), l, chain@, Err::<Seq<u8>, &'static str>("invalid cluster number in cluster chain")));
                    assert(cluster_chain_read(old(self).device(), old(self).fat_spec(), self.device(), self.fat_spec(),
                        l, first_cluster as nat, Err::<Seq<u8>, &'static str>("invalid cluster number in cluster chain")));
                }
                return Err("invalid cluster number in cluster chain");
            }
            let mut chunk: Vec<u8> = vec![0u8; cluster_size];
            proof {
                assert(chunk@ =~= zero_bytes(cluster_size as nat));
            }
            let ghost zeros = chunk@;
            let ghost dev_before = self.device();
            let rr = self.read_cluster_into(cluster, chunk.as_mut_slice());
            proof {
                assert(dev_before.read_outcome(&self.device(), cluster_sector(l, cluster), l.1 as u16, zeros, chunk@, rr));
            }
            match rr {
                Ok(u) => {
                    proof {
                        assert(u == ());
                        assert(rr == Ok::<(), &'static str>(()));
                    }
                },
                Err(e) => {
                    proof {
                        assert(chain_read(mid0, self.device(), l, chain@, Err::<Seq<u8>, &'static str>(e)));
                        assert(cluster_chain_read(old(self).device(), old(self).fat_spec(), self.device(), self.fat_spec(),
                            l, first_cluster as nat, Err::<Seq<u8>, &'static str>(e)));
                    }
                    return Err(e);
                },
            }
            proof {
                assert((i + 1) * cluster_size <= total) by (nonlinear_arith)
                    requires
                        i < chain@.len(),
                        total == chain@.len() * cluster_size;
                assert((i + 1) * cluster_size == i * cluster_size + cluster_size) by (nonlinear_arith);
            }
            let start = i * cluster_size;
            let ghost outer = buffer@;
            let mut k: usize = 0;
            while k < cluster_size
                invariant
                    k <= cluster_size,
                    chunk@.len() == cluster_size,
                    start + cluster_size <= buffer@.len(),
                    buffer@.len() == total,
                    forall|x: int| 0 <= x < buffer@.len() && !(start <= x < start + k) ==> buffer@[x] == outer[x],
                    forall|j: int| 0 <= j < k ==> buffer@[start + j] == chunk@[j],
                decreases cluster_size - k,
            {
                buffer[start + k] = chunk[k];
                k += 1;
            }
            proof {
                let old_states = states;
                let old_chunks = chunks;
                states = states.push(self.device());
                chunks = chunks.push(chunk@);
                assert(chain@[i as int] == cluster);
                assert(zeros == zero_bytes(l.0 * l.1));
                assert(dev_before == old_states.last());
                assert(rr == Ok::<(), &'static str>(()));
                lemma_cluster_reads_push(old_states, old_chunks, chain@, l, self.device(), chunk@);
                assert(states == old_states.push(self.device()));
                assert(chunks == old_chunks.push(chunk@));
                assert forall|q: int, j: int| 0 <= q < i + 1 && 0 <= j < cluster_size implies buffer@[q * cluster_size + j] == #[trigger] chunks[q][j] by {
                    if q < i {
                        assert(q * cluster_size + j < start) by (nonlinear_arith)
                            requires
                                0 <= q < i,
                                0 <= j < cluster_size,
                                start == i * cluster_size;
                        assert(0 <= q * cluster_size + j) by (nonlinear_arith)
                            requires 0 <= q, 0 <= j, cluster_size >= 0;
                        assert(chunks[q] == old_chunks[q]);
                    } else {
                        assert(q * cluster_size + j == start + j) by (nonlinear_arith)
                            requires q == i, start == i * cluster_size;
                    }
                }
            }
            i += 1;
        }
        proof {
            assert(concatenated(buffer@, chunks, l.0 * l.1));
            assert(chain_read(mid0, self.device(), l, chain@, Ok::<Seq<u8>, &'static str>(buffer@)));
            assert(cluster_chain_read(old(self).device(), old(self).fat_spec(), self.device(), self.fat_spec(),
                l, first_cluster as nat, Ok::<Seq<u8>, &'static str>(buffer@)));
        }
        Ok(buffer)
    }

    /// The entries of directory `dir`, or of the root directory when `dir` is `None`.
    /// Fails when `dir` is not a directory, when reading fails, when the root directory
    /// does not fill whole sectors, and when the listing runs past the directory's end.
    pub fn list_directory_raw(&mut self, dir: Option<FatDirectoryEntry>) -> (r: Result<Vec<FatDirectoryEntry>, &'static str>)
        requires
            old(self).wf(),
        ensures
            final(self).wf(),
            final(self).layout() == old(self).layout(),
            dir matches Some(d) && !bit8(d.attributes, 4) ==> (r matches Err(m) && m@ == "list_directory_raw: not a directory"@),
            r matches Ok(v) ==> exists|data: Seq<u8>| directory_spec(data, 0) == Some(v@.map_values(|e: FatDirectoryEntry| e.view())),
            r matches Ok(v) ==> forall|i: int| 0 <= i < v@.len() ==> (#[trigger] v@[i]).long_name is None,
            raw_listing(old(self).device(), old(self).fat_spec(), final(self).device(), final(self).fat_spec(),
                old(self).layout(), dir_view(dir), entries_result(r)),
            dir matches Some(d) && !bit8(d.attributes, 4) ==> final(self).device() == old(self).device()
                && final(self).fat_spec() == old(self).fat_spec(),
            dir is Some && bit8(dir->0.attributes, 4) ==> exists|cr: Result<Seq<u8>, &'static str>| {
                &&& #[trigger] cluster_chain_read(old(self).device(), old(self).fat_spec(), final(self).device(),
                    final(self).fat_spec(), old(self).layout(), dir->0.start_cluster as nat, cr)
                &&& match cr {
                    Err(e) => r == Err::<Vec<FatDirectoryEntry>, &'static str>(e),
                    Ok(bytes) => listing(bytes, r),
                }
            },
            dir is None && (old(self).layout().6 * 32) % old(self).layout().0 != 0 ==> {
                &&& r matches Err(m) && m@ == "root directory size is not a multiple of the sector size"@
                &&& final(self).device() == old(self).device()
                &&& final(self).fat_spec() == old(self).fat_spec()
            },
            dir is None && (old(self).layout().6 * 32) % old(self).layout().0 == 0 ==> {
                let count = (old(self).layout().6 * 32) / old(self).layout().0;
                &&& final(self).fat_spec() == old(self).fat_spec()
                &&& exists|br: Result<Seq<u8>, &'static str>| {
                    &&& #[trigger] sectors_read(old(self).device(), final(self).device(), old(self).layout().5 as u64,
                        count as u16, old(self).layout().0 * count, br)
                    &&& match br {
                        Err(e) => r == Err::<Vec<FatDirectoryEntry>, &'static str>(e),
                        Ok(bytes) => listing(bytes, r),
                    }
                }
            },
    {
        let ghost l = self.layout();
        let ghost dev0 = self.device();
        let ghost fat0 = self.fat_spec();
        if let Some(entry) = dir {
            if !entry.is_directory() {
                return Err("list_directory_raw: not a directory");
            }
            let cr = self.read_cluster_chain(entry.start_cluster as usize);
            let ghost crv = bytes_result(cr);
            proof {
                assert(cluster_chain_read(dev0, fat0, self.device(), self.fat_spec(), l, entry.start_cluster as nat, crv));
                assert(dir_view(dir) == Some(entry.view()));
                assert(bit8(entry.view().1, 4));
                assert(entry.view().8 as nat == entry.start_cluster as nat);
            }
            let buffer = match cr {
                Ok(b) => b,
                Err(e) => {
                    proof {
                        assert(raw_listing(dev0, fat0, self.device(), self.fat_spec(), l, dir_view(dir),
                            Err::<Seq<FatDirectoryEntryView>, &'static str>(e)));
                    }
                    return Err(e);
                },
            };
            let res = FatDirectoryEntry::parse_directory(buffer.as_slice());
            proof {
                assert(view_listing(buffer@, entries_result(res)));
                assert(raw_listing(dev0, fat0, self.device(), self.fat_spec(), l, dir_view(dir), entries_result(res)));
            }
            res
        } else {
            if (self.root_directory_entry_count * BYTES_PER_ENTRY) % self.bytes_per_sector != 0 {
                return Err("root directory size is not a multiple of the sector size");
            }
            let root_sector_count = self.root_directory_entry_count * BYTES_PER_ENTRY / self.bytes_per_sector;
            proof {
                assert(self.bytes_per_sector * root_sector_count <= self.root_directory_entry_count * 32) by {
                    vstd::arithmetic::div_mod::lemma_fundamental_div_mod(
                        (self.root_directory_entry_count * 32) as int, self.bytes_per_sector as int);
                    vstd::arithmetic::div_mod::lemma_mod_bound(
                        (self.root_directory_entry_count * 32) as int, self.bytes_per_sector as int);
                }
            }
            let br = self.read_sectors(self.root_cluster, root_sector_count);
            let ghost brv = bytes_result(br);
            proof {
                assert(sectors_read(dev0, self.device(), l.5 as u64, root_sector_count as u16,
                    l.0 * (root_sector_count as nat), brv));
                assert(root_sector_count == (l.6 * 32) / l.0);
            }
            let buffer = match br {
                Ok(b) => b,
                Err(e) => {
                    proof {
                        assert(raw_listing(dev0, fat0, self.device(), self.fat_spec(), l, dir_view(dir),
                            Err::<Seq<FatDirectoryEntryView>, &'static str>(e)));
                    }
                    return Err(e);
                },
            };
            let res = FatDirectoryEntry::parse_directory(buffer.as_slice());
            proof {
                assert(view_listing(buffer@, entries_result(res)));
                assert(raw_listing(dev0, fat0, self.device(), self.fat_spec(), l, dir_view(dir), entries_result(res)));
            }
            res
        }
    }

    /// The contents of file `entry`: its cluster chain cut to the file's size. Fails
    /// when `entry` is not a file, when reading fails, and when the size exceeds the chain.
    pub fn read_file_raw(&mut self, entry: FatDirectoryEntry) -> (r: Result<Vec<u8>, &'static str>)
        requires
            old(self).wf(),
        ensures
            final(self).wf(),
            final(self).layout() == old(self).layout(),
            bit8(entry.attributes, 3) || bit8(entry.attributes, 4) ==> (r matches Err(m) && m@ == "not a file"@),
            r matches Ok(v) ==> v@.len() == entry.size,
            bit8(entry.attributes, 3) || bit8(entry.attributes, 4) ==> final(self).device() == old(self).device()
                && final(self).fat_spec() == old(self).fat_spec(),
            file_read(old(self).device(), old(self).fat_spec(), final(self).device(), final(self).fat_spec(),
                old(self).layout(), entry.view(), bytes_result(r)),
            !(bit8(entry.attributes, 3) || bit8(entry.attributes, 4)) ==> exists|cr: Result<Seq<u8>, &'static str>| {
                &&& #[trigger] cluster_chain_read(old(self).device(), old(self).fat_spec(), final(self).device(),
                    final(self).fat_spec(), old(self).layout(), entry.start_cluster as nat, cr)
                &&& match cr {
                    Err(e) => r == Err::<Vec<u8>, &'static str>(e),
                    Ok(bytes) => if entry.size > bytes.len() {
                        r matches Err(m) && m@ == "invalid file size"@
                    } else {
                        r matches Ok(v) && v@ == bytes.subrange(0, entry.size as int)
                    },
                }
            },
    {
        if !entry.is_file() {
            return Err("not a file");
        }
        let ghost l = self.layout();
        let ghost dev0 = self.device();
        let ghost fat0 = self.fat_spec();
        let first_cluster = entry.start_cluster as usize;
        let cr = self.read_cluster_chain(first_cluster);
        proof {
            assert(cluster_chain_read(dev0, fat0, self.device(), self.fat_spec(), l, entry.start_cluster as nat,
                bytes_result(cr)));
        }
        let ghost crv = bytes_result(cr);
        proof {
            assert(entry.view().8 == entry.start_cluster && entry.view().1 == entry.attributes && entry.view().9 == entry.size);
            assert(cluster_chain_read(dev0, fat0, self.device(), self.fat_spec(), l, entry.view().8 as nat, crv));
        }
        let mut file_content = match cr {
            Ok(c) => c,
            Err(e) => {
                proof {
                    assert(file_read(dev0, fat0, self.device(), self.fat_spec(), l, entry.view(),
                        Err::<Seq<u8>, &'static str>(e)));
                }
                return Err(e);
            },
        };
        let file_size = entry.size as usize;
        if file_size > file_content.len() {
            proof {
                assert(crv == Ok::<Seq<u8>, &'static str>(file_content@));
                assert(file_read(dev0, fat0, self.device(), self.fat_spec(), l, entry.view(),
                    Err::<Seq<u8>, &'static str>("invalid file size")));
            }
            return Err("invalid file size");
        }
        file_content.truncate(file_size);
        Ok(file_content)
    }

    /// The entries of the directory at `path`, an absolute path whose pieces are matched
    /// against entry names without regard to case; empty pieces are skipped. Fails on a
    /// path that does not start with a slash, on a piece that names no entry, and as
    /// `list_directory_raw` does.
    pub fn list_directory(&mut self, path: &str) -> (r: Result<Vec<FatDirectoryEntry>, &'static str>)
        requires
            old(self).wf(),
        ensures
            final(self).wf(),
            final(self).layout() == old(self).layout(),
            !(path@.len() > 0 && path@[0] == '/') ==> (r matches Err(m) && m@ == "invalid path: must start with /"@)
                && final(self).device() == old(self).device() && final(self).fat_spec() == old(self).fat_spec(),
            (path@.len() > 0 && path@[0] == '/') ==> walk_outcome(old(self).device(), old(self).fat_spec(),
                final(self).device(), final(self).fat_spec(), old(self).layout(), path_tokens(path@), entries_result(r)),
            r matches Ok(v) ==> exists|data: Seq<u8>| directory_spec(data, 0) == Some(v@.map_values(|e: FatDirectoryEntry| e.view())),
            r matches Ok(v) ==> forall|i: int| 0 <= i < v@.len() ==> (#[trigger] v@[i]).long_name is None,
    {
        if !starts_with_slash(path) {
            return Err("invalid path: must start with /");
        }
        let ghost toks = path_tokens(path@);
        let ghost l = self.layout();
        let ghost d0 = self.device();
        let ghost f0 = self.fat_spec();
        let tokens = split_path(path);
        let root = self.list_directory_raw(None);
        let mut current_dir = match root {
            Ok(d) => d,
            Err(e) => {
                proof {
                    assert(raw_listing(d0, f0, self.device(), self.fat_spec(), l, None,
                        Err::<Seq<FatDirectoryEntryView>, &'static str>(e)));
                }
                return Err(e);
            },
        };
        let ghost mut devs: Seq<D> = seq![d0, self.device()];
        let ghost mut fats: Seq<Option<Fat>> = seq![f0, self.fat_spec()];
        let ghost mut lists: Seq<Seq<FatDirectoryEntryView>> = seq![current_dir@.map_values(|e: FatDirectoryEntry| e.view())];
        proof {
            assert(walk(devs, fats, lists, toks, l));
        }
        let mut i: usize = 0;
        while i < tokens.len()
            invariant
                self.wf(),
                self.layout() == l,
                l == old(self).layout(),
                d0 == old(self).device(),
                f0 == old(self).fat_spec(),
                toks == path_tokens(path@),
                i <= tokens@.len(),
                tokens@.len() == toks.len(),
                forall|j: int| 0 <= j < tokens@.len() ==> (#[trigger] tokens@[j])@ == toks[j],
                path@.len() > 0 && path@[0] == '/',
                exists|data: Seq<u8>| directory_spec(data, 0) == Some(current_dir@.map_values(|e: FatDirectoryEntry| e.view())),
                forall|j: int| 0 <= j < current_dir@.len() ==> (#[trigger] current_dir@[j]).long_name is None,
                walk(devs, fats, lists, toks, l),
                lists.len() == i + 1,
                devs[0] == d0,
                fats[0] == f0,
                devs.last() == self.device(),
                fats.last() == self.fat_spec(),
                lists.last() == current_dir@.map_values(|e: FatDirectoryEntry| e.view()),
            decreases tokens@.len() - i,
        {
            let token = tokens[i];
            let ghost dev_b = self.device();
            let ghost fat_b = self.fat_spec();
            let ghost list_b = current_dir@.map_values(|e: FatDirectoryEntry| e.view());
            if !token.is_empty() {
                match find_entry(current_dir.as_slice(), token) {
                    Some(k) => {
                        let entry = current_dir[k].copy();
                        proof {
                            assert(entry.view() == list_b[k as int]);
                        }
                        let res = self.list_directory_raw(Some(entry));
                        match res {
                            Ok(d) => {
                                current_dir = d;
                                proof {
                                    let next = current_dir@.map_values(|e: FatDirectoryEntry| e.view());
                                    assert(walk_step(dev_b, fat_b, self.device(), self.fat_spec(), l, list_b, toks[i as int], next));
                                    let od = devs;
                                    let of = fats;
                                    let ol = lists;
                                    devs = devs.push(self.device());
                                    fats = fats.push(self.fat_spec());
                                    lists = lists.push(next);
                                    assert forall|j: int| 0 <= j < lists.len() - 1 implies walk_step(devs[j + 1], fats[j + 1],
                                        devs[j + 2], fats[j + 2], l, #[trigger] lists[j], toks[j], lists[j + 1]) by {
                                        if j < i {
                                            assert(devs[j + 1] == od[j + 1] && devs[j + 2] == od[j + 2]);
                                            assert(fats[j + 1] == of[j + 1] && fats[j + 2] == of[j + 2]);
                                            assert(lists[j] == ol[j] && lists[j + 1] == ol[j + 1]);
                                        }
                                    }
                                    assert(walk(devs, fats, lists, toks, l));
                                }
                            },
                            Err(e) => {
                                proof {
                                    assert(walk_fails(dev_b, fat_b, self.device(), self.fat_spec(), l, list_b, toks[i as int],
                                        Err::<Seq<FatDirectoryEntryView>, &'static str>(e)));
                                    assert(walk_outcome(d0, f0, self.device(), self.fat_spec(), l, toks,
                                        Err::<Seq<FatDirectoryEntryView>, &'static str>(e)));
                                }
                                let out: Result<Vec<FatDirectoryEntry>, &'static str> = Err(e);
                                proof {
                                    assert(entries_result(out) == Err::<Seq<FatDirectoryEntryView>, &'static str>(e));
                                }
                                return out;
                            },
                        }
                    },
                    None => {
                        proof {
                            assert(walk_fails(dev_b, fat_b, self.device(), self.fat_spec(), l, list_b, toks[i as int],
                                Err::<Seq<FatDirectoryEntryView>, &'static str>("no such file or directory")));
                            assert(walk_outcome(d0, f0, self.device(), self.fat_spec(), l, toks,
                                Err::<Seq<FatDirectoryEntryView>, &'static str>("no such file or directory")));
                        }
                        let out: Result<Vec<FatDirectoryEntry>, &'static str> = Err("no such file or directory");
                        proof {
                            assert(entries_result(out) == Err::<Seq<FatDirectoryEntryView>, &'static str>("no such file or directory"));
                        }
                        return out;
                    },
                }
            } else {
                proof {
                    let od = devs;
                    let of = fats;
                    let ol = lists;
                    devs = devs.push(self.device());
                    fats = fats.push(self.fat_spec());
                    lists = lists.push(list_b);
                    assert forall|j: int| 0 <= j < lists.len() - 1 implies walk_step(devs[j + 1], fats[j + 1],
                        devs[j + 2], fats[j + 2], l, #[trigger] lists[j], toks[j], lists[j + 1]) by {
                        if j < i {
                            assert(devs[j + 1] == od[j + 1] && devs[j + 2] == od[j + 2]);
                            assert(fats[j + 1] == of[j + 1] && fats[j + 2] == of[j + 2]);
                            assert(lists[j] == ol[j] && lists[j + 1] == ol[j + 1]);
                        }
                    }
                    assert(walk(devs, fats, lists, toks, l));
                }
            }
            i = i + 1;
        }
        proof {
            assert(walk_outcome(d0, f0, self.device(), self.fat_spec(), l, toks,
                Ok::<Seq<FatDirectoryEntryView>, &'static str>(current_dir@.map_values(|e: FatDirectoryEntry| e.view()))));
        }
        Ok(current_dir)
    }

    /// The contents of the file at `path`, an absolute path whose pieces are matched against
    /// entry names without regard to case; empty pieces are skipped and the last non-empty
    /// piece names the file. Fails on a path that does not start with a slash, on a path
    /// with no non-empty piece, on a piece that names no entry, when the last piece names
    /// no file, and as `list_directory_raw` and `read_file_raw` do.
    #[verifier::rlimit(40)]
    pub fn read_file(&mut self, path: &str) -> (r: Result<Vec<u8>, &'static str>)
        requires
            old(self).wf(),
        ensures
            final(self).wf(),
            final(self).layout() == old(self).layout(),
            !(path@.len() > 0 && path@[0] == '/') ==> (r matches Err(m) && m@ == "invalid path: must start with /"@)
                && final(self).device() == old(self).device() && final(self).fat_spec() == old(self).fat_spec(),
            (path@.len() > 0 && path@[0] == '/') && (forall|j: int| 0 <= j < path_tokens(path@).len()
                ==> (#[trigger] path_tokens(path@)[j]).len() == 0) ==> (r matches Err(m) && m@ == "no such file or directory"@)
                && final(self).device() == old(self).device() && final(self).fat_spec() == old(self).fat_spec(),
            (path@.len() > 0 && path@[0] == '/') && (exists|j: int| 0 <= j < path_tokens(path@).len()
                && (#[trigger] path_tokens(path@)[j]).len() > 0) ==> path_file_read(old(self).device(), old(self).fat_spec(),
                final(self).device(), final(self).fat_spec(), old(self).layout(), path_tokens(path@),
                last_piece(path_tokens(path@)), bytes_result(r)),
    {
        if !starts_with_slash(path) {
            return Err("invalid path: must start with /");
        }
        let ghost toks = path_tokens(path@);
        let ghost l = self.layout();
        let ghost d0 = self.device();
        let ghost f0 = self.fat_spec();
        let tokens = split_path(path);
        let index = match last_nonempty(&tokens) {
            Some(k) => k,
            None => {
                proof {
                    assert forall|j: int| 0 <= j < toks.len() implies (#[trigger] toks[j]).len() == 0 by {
                        assert(tokens@[j]@ == toks[j]);
                    }
                }
                return Err("no such file or directory");
            },
        };
        let ghost sub = toks.subrange(0, index as int);
        proof {
            assert(tokens@[index as int]@ == toks[index as int]);
            assert forall|j: int| index < j < toks.len() implies (#[trigger] toks[j]).len() == 0 by {
                assert(tokens@[j]@ == toks[j]);
            }
            let c = last_piece(toks);
            assert(0 <= index < toks.len() && toks[index as int].len() > 0
                && forall|j: int| index < j < toks.len() ==> (#[trigger] toks[j]).len() == 0);
            assert(0 <= c < toks.len() && toks[c].len() > 0 && forall|j: int| c < j < toks.len() ==> (#[trigger] toks[j]).len() == 0);
            if c < index {
                assert(toks[index as int].len() == 0);
            }
            if c > index {
                assert(toks[c].len() == 0);
            }
            assert(c == index);
        }
        let root = self.list_directory_raw(None);
        let mut current_dir = match root {
            Ok(d) => d,
            Err(e) => {
                proof {
                    assert(raw_listing(d0, f0, self.device(), self.fat_spec(), l, None,
                        Err::<Seq<FatDirectoryEntryView>, &'static str>(e)));
                }
                let out: Result<Vec<u8>, &'static str> = Err(e);
                proof {
                    assert(bytes_result(out) == Err::<Seq<u8>, &'static str>(e));
                }
                return out;
            },
        };
        let ghost mut devs: Seq<D> = seq![d0, self.device()];
        let ghost mut fats: Seq<Option<Fat>> = seq![f0, self.fat_spec()];
        let ghost mut lists: Seq<Seq<FatDirectoryEntryView>> = seq![current_dir@.map_values(|e: FatDirectoryEntry| e.view())];
        proof {
            assert(walk(devs, fats, lists, sub, l));
        }
        let mut i: usize = 0;
        while i < index
            invariant
                self.wf(),
                self.layout() == l,
                l == old(self).layout(),
                d0 == old(self).device(),
                f0 == old(self).fat_spec(),
                toks == path_tokens(path@),
                sub == toks.subrange(0, index as int),
                last_piece(toks) == index,
                i <= index < tokens@.len(),
                tokens@.len() == toks.len(),
                forall|j: int| 0 <= j < tokens@.len() ==> (#[trigger] tokens@[j])@ == toks[j],
                path@.len() > 0 && path@[0] == '/',
                toks[index as int].len() > 0,
                walk(devs, fats, lists, sub, l),
                lists.len() == i + 1,
                devs[0] == d0,
                fats[0] == f0,
                devs.last() == self.device(),
                fats.last() == self.fat_spec(),
                lists.last() == current_dir@.map_values(|e: FatDirectoryEntry| e.view()),
            decreases index - i,
        {
            let token = tokens[i];
            let ghost dev_b = self.device();
            let ghost fat_b = self.fat_spec();
            let ghost list_b = current_dir@.map_values(|e: FatDirectoryEntry| e.view());
            proof {
                assert(sub[i as int] == toks[i as int]);
            }
            if !token.is_empty() {
                match find_entry(current_dir.as_slice(), token) {
                    Some(k) => {
                        let entry = current_dir[k].copy();
                        proof {
                            assert(entry.view() == list_b[k as int]);
                        }
                        let res = self.list_directory_raw(Some(entry));
                        match res {
                            Ok(d) => {
                                current_dir = d;
                                proof {
                                    let next = current_dir@.map_values(|e: FatDirectoryEntry| e.view());
                                    assert(walk_step(dev_b, fat_b, self.device(), self.fat_spec(), l, list_b, sub[i as int], next));
                                    let od = devs;
                                    let of = fats;
                                    let ol = lists;
                                    devs = devs.push(self.device());
                                    fats = fats.push(self.fat_spec());
                                    lists = lists.push(next);
                                    assert forall|j: int| 0 <= j < lists.len() - 1 implies walk_step(devs[j + 1], fats[j + 1],
                                        devs[j + 2], fats[j + 2], l, #[trigger] lists[j], sub[j], lists[j + 1]) by {
                                        if j < i {
                                            assert(devs[j + 1] == od[j + 1] && devs[j + 2] == od[j + 2]);
                                            assert(fats[j + 1] == of[j + 1] && fats[j + 2] == of[j + 2]);
                                            assert(lists[j] == ol[j] && lists[j + 1] == ol[j + 1]);
                                        }
                                    }
                                    assert(walk(devs, fats, lists, sub, l));
                                }
                            },
                            Err(e) => {
                                proof {
                                    assert(walk_fails(dev_b, fat_b, self.device(), self.fat_spec(), l, list_b, toks[i as int],
                                        Err::<Seq<FatDirectoryEntryView>, &'static str>(e)));
                                }
                                let out: Result<Vec<u8>, &'static str> = Err(e);
                                proof {
                                    assert(bytes_result(out) == Err::<Seq<u8>, &'static str>(e));
                                    assert(path_file_read(d0, f0, self.device(), self.fat_spec(), l, toks, index as int,
                                        bytes_result(out)));
                                }
                                return out;
                            },
                        }
                    },
                    None => {
                        proof {
                            assert(walk_fails(dev_b, fat_b, self.device(), self.fat_spec(), l, list_b, toks[i as int],
                                Err::<Seq<FatDirectoryEntryView>, &'static str>("no such file or directory")));
                        }
                        let out: Result<Vec<u8>, &'static str> = Err("no such file or directory");
                        proof {
                            assert(bytes_result(out) == Err::<Seq<u8>, &'static str>("no such file or directory"));
                            assert(path_file_read(d0, f0, self.device(), self.fat_spec(), l, toks, index as int,
                                bytes_result(out)));
                        }
                        return out;
                    },
                }
            } else {
                proof {
                    let od = devs;
                    let of = fats;
                    let ol = lists;
                    devs = devs.push(self.device());
                    fats = fats.push(self.fat_spec());
                    lists = lists.push(list_b);
                    assert forall|j: int| 0 <= j < lists.len() - 1 implies walk_step(devs[j + 1], fats[j + 1],
                        devs[j + 2], fats[j + 2], l, #[trigger] lists[j], sub[j], lists[j + 1]) by {
                        if j < i {
                            assert(devs[j + 1] == od[j + 1] && devs[j + 2] == od[j + 2]);
                            assert(fats[j + 1] == of[j + 1] && fats[j + 2] == of[j + 2]);
                            assert(lists[j] == ol[j] && lists[j + 1] == ol[j + 1]);
                        }
                    }
                    assert(walk(devs, fats, lists, sub, l));
                }
            }
            i = i + 1;
        }
        let file_token = tokens[index];
        let ghost list_f = current_dir@.map_values(|e: FatDirectoryEntry| e.view());
        match find_entry(current_dir.as_slice(), file_token) {
            Some(k) => {
                let entry = current_dir[k].copy();
                proof {
                    assert(entry.view() == list_f[k as int]);
                }
                if !entry.is_file() {
                    let out: Result<Vec<u8>, &'static str> = Err("not a file");
                    proof {
                        assert(bytes_result(out) == Err::<Seq<u8>, &'static str>("not a file"));
                        assert(file_read(self.device(), self.fat_spec(), self.device(), self.fat_spec(), l, list_f[k as int],
                            bytes_result(out)));
                        assert(path_file_read(d0, f0, self.device(), self.fat_spec(), l, toks, index as int, bytes_result(out)));
                    }
                    return out;
                }
                let out = self.read_file_raw(entry);
                proof {
                    assert(path_file_read(d0, f0, self.device(), self.fat_spec(), l, toks, index as int, bytes_result(out)));
                }
                out
            },
            None => {
                let out: Result<Vec<u8>, &'static str> = Err("no such file or directory");
                proof {
                    assert(bytes_result(out) == Err::<Seq<u8>, &'static str>("no such file or directory"));
                    assert(path_file_read(d0, f0, self.device(), self.fat_spec(), l, toks, index as int, bytes_result(out)));
                }
                out
            },
        }
    }
}

} // verus!
