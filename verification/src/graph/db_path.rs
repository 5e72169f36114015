//! The name of a database directory: whatever path is given, the engine
//! works under the same path with the extension `rfdb`.

use vstd::prelude::*;
use vstd::string::*;
use vstd::utf8::*;

use crate::error::join2;
use crate::text::text;

verus! {

/// The path's length without the slashes at its end.
pub open spec fn trimmed_len(p: Seq<u8>) -> int
    decreases p.len(),
{
    if p.len() > 0 && p.last() == 47u8 {
        trimmed_len(p.drop_last())
    } else {
        p.len() as int
    }
}

/// Where the last component of the first `n` bytes starts: behind their
/// last slash.
pub open spec fn component_start(p: Seq<u8>, n: int) -> int
    decreases n,
{
    if n <= 0 {
        0
    } else if p[n - 1] == 47u8 {
        n
    } else {
        component_start(p, n - 1)
    }
}

/// Where the extension of the component between `start` and `n` begins:
/// at its last dot. A dot that is the component's first byte begins no
/// extension.
pub open spec fn last_dot(p: Seq<u8>, start: int, n: int) -> Option<int>
    decreases n - start,
{
    if n <= start + 1 {
        None
    } else if p[n - 1] == 46u8 {
        Some(n - 1)
    } else {
        last_dot(p, start, n - 1)
    }
}

/// The path with the extension `rfdb`. Slashes at the end do not count. A
/// last component with an extension has it replaced; one without gets
/// `.rfdb` appended; where there is no last component to name (the path is
/// empty, all slashes, or ends in `.` or `..`), the database is `db.rfdb`
/// under the path.
pub open spec fn spec_normalize(p: Seq<u8>) -> Seq<u8> {
    let n = trimmed_len(p);
    if n == 0 {
        if p.len() == 0 {
            text("db.rfdb"@)
        } else {
            text("/db.rfdb"@)
        }
    } else {
        let start = component_start(p, n);
        let name = p.subrange(start, n);
        if name == seq![46u8] || name == seq![46u8, 46u8] {
            p.subrange(0, n) + text("/db.rfdb"@)
        } else {
            match last_dot(p, start, n) {
                Some(d) => p.subrange(0, d) + text(".rfdb"@),
                None => p.subrange(0, n) + text(".rfdb"@),
            }
        }
    }
}

proof fn lemma_trimmed(p: Seq<u8>, n: int)
    requires
        0 <= n <= p.len(),
        forall|j: int| n <= j < p.len() ==> p[j] == 47u8,
        n == 0 || p[n - 1] != 47u8,
    ensures
        trimmed_len(p) == n,
    decreases p.len() - n,
{
    if n < p.len() {
        lemma_trimmed(p.drop_last(), n);
    }
}

proof fn lemma_component_start(p: Seq<u8>, s: int, n: int)
    requires
        0 <= s <= n <= p.len(),
        forall|j: int| s <= j < n ==> p[j] != 47u8,
        s == 0 || p[s - 1] == 47u8,
    ensures
        component_start(p, n) == s,
    decreases n - s,
{
    if s < n {
        lemma_component_start(p, s, n - 1);
    }
}

proof fn lemma_last_dot_none(p: Seq<u8>, start: int, n: int)
    requires
        forall|j: int| start < j < n ==> p[j] != 46u8,
    ensures
        last_dot(p, start, n).is_none(),
    decreases n - start,
{
    if n > start + 1 {
        lemma_last_dot_none(p, start, n - 1);
    }
}

proof fn lemma_last_dot_some(p: Seq<u8>, start: int, d: int, n: int)
    requires
        start < d < n,
        p[d] == 46u8,
        forall|j: int| d < j < n ==> p[j] != 46u8,
    ensures
        last_dot(p, start, n) == Some(d),
    decreases n - d,
{
    if n - 1 > d {
        lemma_last_dot_some(p, start, d, n - 1);
    }
}

/// A byte that is a slash or a dot, or the end of the text, is where a
/// character begins.
proof fn lemma_boundary(bytes: Seq<u8>, at: int)
    requires
        valid_utf8(bytes),
        0 <= at <= bytes.len(),
        at < bytes.len() ==> bytes[at] == 46u8 || bytes[at] == 47u8,
    ensures
        is_char_boundary(bytes, at),
{
    if at < bytes.len() {
        is_char_boundary_iff_not_is_continuation_byte(bytes, at);
    } else {
        is_char_boundary_start_end_of_seq(bytes);
    }
}

/// The path of the database directory that belongs to `path`.
pub fn normalize_db_path(path: &str) -> (r: String)
    ensures
        text(r@) == spec_normalize(text(path@)),
{
    let bytes = path.as_bytes();
    proof {
        encode_utf8_valid_utf8(path@);
    }
    let mut n: usize = bytes.len();
    while n > 0 && bytes[n - 1] == 47u8
        invariant
            n <= bytes@.len(),
            forall|j: int| n <= j < bytes@.len() ==> bytes@[j] == 47u8,
        decreases n,
    {
        n -= 1;
    }
    proof {
        lemma_trimmed(bytes@, n as int);
    }
    if n == 0 {
        if bytes.len() == 0 {
            return "db.rfdb".to_owned();
        } else {
            return "/db.rfdb".to_owned();
        }
    }
    let mut start: usize = n;
    while start > 0 && bytes[start - 1] != 47u8
        invariant
            start <= n <= bytes@.len(),
            forall|j: int| start <= j < n ==> bytes@[j] != 47u8,
        decreases start,
    {
        start -= 1;
    }
    proof {
        lemma_component_start(bytes@, start as int, n as int);
        lemma_boundary(bytes@, n as int);
    }
    let is_dot = n - start == 1 && bytes[start] == 46u8;
    let is_dot_dot = n - start == 2 && bytes[start] == 46u8 && bytes[start + 1] == 46u8;
    let ghost name = bytes@.subrange(start as int, n as int);
    proof {
        if is_dot {
            assert(name =~= seq![46u8]);
        } else {
            assert(name != seq![46u8]) by {
                if name.len() == 1 {
                    assert(name[0] == bytes@[start as int]);
                }
            }
        }
        if is_dot_dot {
            assert(name =~= seq![46u8, 46u8]);
        } else {
            assert(name != seq![46u8, 46u8]) by {
                if name.len() == 2 {
                    assert(name[0] == bytes@[start as int]);
                    assert(name[1] == bytes@[start + 1]);
                }
            }
        }
    }
    if is_dot || is_dot_dot {
        let (head, _) = path.split_at(n);
        return join2(head, "/db.rfdb");
    }
    let mut d: usize = n;
    while d > start + 1 && bytes[d - 1] != 46u8
        invariant
            start < d <= n <= bytes@.len(),
            forall|j: int| d <= j < n ==> bytes@[j] != 46u8,
        decreases d,
    {
        d -= 1;
    }
    if d > start + 1 {
        proof {
            lemma_last_dot_some(bytes@, start as int, d - 1, n as int);
            lemma_boundary(bytes@, d - 1);
        }
        let (head, _) = path.split_at(d - 1);
        join2(head, ".rfdb")
    } else {
        proof {
            lemma_last_dot_none(bytes@, start as int, n as int);
        }
        let (head, _) = path.split_at(n);
        join2(head, ".rfdb")
    }
}

} // verus!
