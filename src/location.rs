//! Where a blob lives, as read from its URL.
use vstd::prelude::*;

verus! {

/// The host name ending that storage accounts are served under.
pub open spec fn account_suffix() -> Seq<char> {
    ".blob.core.windows.net"@
}

/// `s` with every trailing copy of `suf` removed.
pub open spec fn trim_suffix(s: Seq<char>, suf: Seq<char>) -> Seq<char>
    decreases s.len(),
{
    if suf.len() > 0 && s.len() >= suf.len() && s.subrange(s.len() - suf.len(), s.len() as int)
        == suf {
        trim_suffix(s.subrange(0, s.len() - suf.len()), suf)
    } else {
        s
    }
}

/// The parts joined with a slash between each two.
pub open spec fn join_slash(parts: Seq<Seq<char>>) -> Seq<char>
    decreases parts.len(),
{
    if parts.len() == 0 {
        Seq::empty()
    } else if parts.len() == 1 {
        parts[0]
    } else {
        join_slash(parts.drop_last()) + "/"@ + parts.last()
    }
}

/// A blob's account, container and name.
#[derive(Debug, Clone, PartialEq, Eq)]
pub struct BlobLocation {
    pub account: String,
    pub container: String,
    pub blob: String,
}

impl View for BlobLocation {
    type V = (Seq<char>, Seq<char>, Seq<char>);

    open spec fn view(&self) -> (Seq<char>, Seq<char>, Seq<char>) {
        (self.account@, self.container@, self.blob@)
    }
}

pub open spec fn strings_view(v: Seq<String>) -> Seq<Seq<char>> {
    v.map_values(|s: String| s@)
}

pub open spec fn option_view(o: Option<String>) -> Option<Seq<char>> {
    match o {
        Some(s) => Some(s@),
        None => None,
    }
}

pub open spec fn option_strings_view(o: Option<Vec<String>>) -> Option<Seq<Seq<char>>> {
    match o {
        Some(v) => Some(strings_view(v@)),
        None => None,
    }
}

/// The location that a URL's host and path segments name, or why they name
/// none: the account is the host without the storage suffix, the container
/// the first segment, and the blob the other segments joined by slashes.
pub open spec fn location_spec(host: Option<Seq<char>>, segments: Option<Seq<Seq<char>>>) -> Result<
    (Seq<char>, Seq<char>, Seq<char>),
    Seq<char>,
> {
    match host {
        None => Err("No host"@),
        Some(h) => match segments {
            None => Err("No path segments"@),
            Some(p) => if p.len() == 0 {
                Err("No container"@)
            } else {
                Ok((trim_suffix(h, account_suffix()), p[0], join_slash(p.drop_first())))
            },
        },
    }
}

fn ends_with_at(s: &str, len: usize, suf: &str, suf_len: usize) -> (r: bool)
    requires
        len <= s@.len(),
        suf_len == suf@.len(),
        suf_len <= len,
    ensures
        r == (s@.subrange(len - suf_len, len as int) == suf@),
{
    let start = len - suf_len;
    let mut k: usize = 0;
    while k < suf_len
        invariant
            len <= s@.len(),
            suf_len == suf@.len(),
            start == len - suf_len,
            k <= suf_len,
            forall|j: int| 0 <= j < k ==> s@[start + j] == suf@[j],
        decreases suf_len - k,
    {
        if s.get_char(start + k) != suf.get_char(k) {
            assert(s@.subrange(start as int, len as int)[k as int] != suf@[k as int]);
            return false;
        }
        k = k + 1;
    }
    assert(s@.subrange(start as int, len as int) =~= suf@);
    true
}

/// The account name in a host name: the host without trailing copies of the
/// storage suffix.
pub fn account_of(host: &str) -> (r: String)
    ensures
        r@ == trim_suffix(host@, account_suffix()),
{
    let suf = ".blob.core.windows.net";
    proof {
        reveal_strlit(".blob.core.windows.net");
    }
    let suf_len = suf.unicode_len();
    let mut len = host.unicode_len();
    assert(host@.subrange(0, len as int) =~= host@);
    while len >= suf_len && ends_with_at(host, len, suf, suf_len)
        invariant
            suf@ == account_suffix(),
            suf_len == suf@.len(),
            suf_len > 0,
            len <= host@.len(),
            trim_suffix(host@, account_suffix()) == trim_suffix(
                host@.subrange(0, len as int),
                account_suffix(),
            ),
        decreases len,
    {
        proof {
            let cur = host@.subrange(0, len as int);
            assert(cur.subrange(len - suf_len, len as int) =~= host@.subrange(
                len - suf_len,
                len as int,
            ));
            assert(cur.subrange(0, len - suf_len) =~= host@.subrange(0, len - suf_len));
        }
        len = len - suf_len;
    }
    proof {
        let cur = host@.subrange(0, len as int);
        if len >= suf_len {
            assert(cur.subrange(len - suf_len, len as int) =~= host@.subrange(
                len - suf_len,
                len as int,
            ));
        }
    }
    host.substring_char(0, len).to_owned()
}

/// The parts from index `from` on, joined with a slash between each two.
pub fn join_with_slash(parts: &Vec<String>, from: usize) -> (r: String)
    requires
        from <= parts.len(),
    ensures
        r@ == join_slash(strings_view(parts@).subrange(from as int, parts.len() as int)),
{
    let ghost all = strings_view(parts@);
    let mut out = String::new();
    let mut i: usize = from;
    assert(all.subrange(from as int, from as int) =~= Seq::<Seq<char>>::empty());
    while i < parts.len()
        invariant
            from <= i <= parts.len(),
            all == strings_view(parts@),
            out@ == join_slash(all.subrange(from as int, i as int)),
        decreases parts.len() - i,
    {
        proof {
            reveal_strlit("/");
        }
        let ghost before = all.subrange(from as int, i as int);
        if i > from {
            out.append("/");
        }
        out.append(parts[i].as_str());
        proof {
            let next = all.subrange(from as int, i + 1);
            assert(next.drop_last() =~= before);
            assert(next.last() == parts@[i as int]@);
            if i == from {
                assert(out@ =~= next[0]);
            } else {
                assert(out@ =~= join_slash(next));
            }
        }
        i = i + 1;
    }
    out
}

/// The location that a URL's host and path segments name.
pub fn blob_location(host: Option<String>, segments: Option<Vec<String>>) -> (r: Result<
    BlobLocation,
    String,
>)
    ensures
        match location_spec(option_view(host), option_strings_view(segments)) {
            Ok(l) => r is Ok && r->Ok_0@ == l,
            Err(e) => r is Err && r->Err_0@ == e,
        },
{
    let h = match host {
        None => {
            return Err(String::from_str("No host"));
        },
        Some(h) => h,
    };
    let p = match segments {
        None => {
            return Err(String::from_str("No path segments"));
        },
        Some(p) => p,
    };
    if p.len() == 0 {
        return Err(String::from_str("No container"));
    }
    let account = account_of(h.as_str());
    let container = p[0].clone();
    let blob = join_with_slash(&p, 1);
    assert(strings_view(p@).drop_first() =~= strings_view(p@).subrange(1, p@.len() as int));
    Ok(BlobLocation { account, container, blob })
}

} // verus!
