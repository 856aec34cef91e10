//! The host's load, memory and disk.
use vstd::prelude::*;

use crate::reading::Reading;
use crate::text::{begins, cut_at, same, split, texts};

verus! {

/// A sample of the host.
pub struct HostStats {
    /// The load of all processors together, in percent.
    pub cpu_pct: Reading,
    /// Memory in bytes.
    pub mem_used: u64,
    pub mem_total: u64,
    /// The space of the disk looked at, in bytes.
    pub disk_used: u64,
    pub disk_total: u64,
    /// Where that disk is mounted.
    pub disk_mount: String,
    pub hostname: String,
}

/// A mounted disk.
pub struct DiskInfo {
    /// Where it is mounted; missing where that path is not Unicode text.
    pub mount: Option<String>,
    /// Its space in bytes.
    pub total: u64,
    pub available: u64,
}

/// Samples the host, with the disk mounted at one place.
pub struct HostMonitor {
    want_mount: String,
}

impl View for HostMonitor {
    type V = Seq<char>;

    closed spec fn view(&self) -> Seq<char> {
        self.want_mount@
    }
}

/// Whether a piece of a path leads anywhere.
pub open spec fn is_step(piece: Seq<char>) -> bool {
    piece.len() > 0 && piece != "."@
}

/// Whether a path starts at the root.
pub open spec fn rooted(path: Seq<char>) -> bool {
    path.len() > 0 && path[0] == '/'
}

/// The steps of a path. Repeated slashes, one at the end and single dots lead nowhere;
/// but for a dot at the very beginning, which counts.
pub open spec fn path_steps(path: Seq<char>) -> Seq<Seq<char>> {
    let pieces = cut_at(path, '/');
    let steps = pieces.filter(|piece: Seq<char>| is_step(piece));
    if pieces[0] == "."@ {
        seq!["."@] + steps
    } else {
        steps
    }
}

/// Whether two paths are the same, step by step.
pub open spec fn same_path(a: Seq<char>, b: Seq<char>) -> bool {
    rooted(a) == rooted(b) && path_steps(a) == path_steps(b)
}

/// The first disk that is mounted at `path`.
pub open spec fn disk_at(disks: Seq<DiskInfo>, path: Seq<char>) -> Option<DiskInfo>
    decreases disks.len(),
{
    if disks.len() == 0 {
        None
    } else {
        let disk = disks.first();
        if disk.mount is Some && same_path(disk.mount->0@, path) {
            Some(disk)
        } else {
            disk_at(disks.drop_first(), path)
        }
    }
}

/// The disk to look at: the one mounted at `want`, else the one at the root.
pub open spec fn chosen_disk(disks: Seq<DiskInfo>, want: Seq<char>) -> Option<DiskInfo> {
    if disk_at(disks, want) is Some {
        disk_at(disks, want)
    } else {
        disk_at(disks, "/"@)
    }
}

/// The space in use on a disk.
pub open spec fn space_used(disk: DiskInfo) -> u64 {
    if disk.total >= disk.available {
        (disk.total - disk.available) as u64
    } else {
        0
    }
}

/// A disk that is mounted at the wanted place is preferred to the one at the root, and
/// the one looked at is always mounted at one of the two.
pub proof fn law_wanted_disk_comes_first(disks: Seq<DiskInfo>, want: Seq<char>, i: int)
    requires
        0 <= i < disks.len(),
        disks[i].mount is Some,
        same_path(disks[i].mount->0@, want) || same_path(disks[i].mount->0@, "/"@),
    ensures
        chosen_disk(disks, want) matches Some(disk) && disks.contains(disk) && disk.mount is Some
            && (same_path(disk.mount->0@, want) || same_path(disk.mount->0@, "/"@)) && (same_path(
            disks[i].mount->0@,
            want,
        ) ==> same_path(disk.mount->0@, want)),
{
    lemma_disk_at(disks, want, i);
    lemma_disk_at(disks, "/"@, i);
}

proof fn lemma_disk_at(disks: Seq<DiskInfo>, path: Seq<char>, i: int)
    requires
        0 <= i < disks.len(),
    ensures
        disks[i].mount is Some && same_path(disks[i].mount->0@, path) ==> disk_at(disks, path) is Some,
        match disk_at(disks, path) {
            Some(disk) => disks.contains(disk) && disk.mount is Some && same_path(
                disk.mount->0@,
                path,
            ),
            None => true,
        },
    decreases disks.len(),
{
    assert(disks.contains(disks[0]));
    let rest = disks.drop_first();
    if rest.len() > 0 {
        lemma_disk_at(
            rest,
            path,
            if i > 0 {
                i - 1
            } else {
                0
            },
        );
        assert forall|d: DiskInfo| rest.contains(d) implies disks.contains(d) by {
            let k = choose|k: int| 0 <= k < rest.len() && rest[k] == d;
            assert(disks[k + 1] == d);
        }
    }
}

fn starts_at_root(path: &str) -> (r: bool)
    ensures
        r == rooted(path@),
{
    proof {
        reveal_strlit("/");
        assert("/"@.is_prefix_of(path@) == rooted(path@)) by {
            if rooted(path@) {
                assert("/"@ =~= path@.subrange(0, 1));
            }
            if "/"@.is_prefix_of(path@) {
                assert(path@.subrange(0, 1)[0] == '/');
            }
        }
    }
    begins(path, "/")
}

fn steps(path: &str) -> (r: Vec<String>)
    ensures
        texts(r@) == path_steps(path@),
{
    let pieces = split(path, '/');
    let ghost all = texts(pieces@);
    let ghost test = |piece: Seq<char>| is_step(piece);
    assert(all[0] == pieces@[0]@);
    let mut out: Vec<String> = Vec::new();
    let ghost mut start: Seq<Seq<char>> = Seq::empty();
    if same(pieces[0].as_str(), ".") {
        out.push(pieces[0].clone());
        proof {
            start = seq!["."@];
        }
    }
    let mut i: usize = 0;
    proof {
        reveal(Seq::filter);
        assert(texts(out@) =~= start + all.take(0).filter(test));
    }
    while i < pieces.len()
        invariant
            i <= pieces.len(),
            all == texts(pieces@),
            test == (|piece: Seq<char>| is_step(piece)),
            texts(out@) == start + all.take(i as int).filter(test),
        decreases pieces.len() - i,
    {
        let ghost earlier = texts(out@);
        proof {
            reveal(Seq::filter);
            assert(all.take(i + 1).drop_last() =~= all.take(i as int));
            assert(all.take(i + 1).last() == pieces@[i as int]@);
        }
        if !pieces[i].as_str().is_empty() && !same(pieces[i].as_str(), ".") {
            out.push(pieces[i].clone());
            assert(texts(out@) =~= earlier.push(all[i as int]));
        }
        assert(texts(out@) =~= start + all.take(i + 1).filter(test));
        i = i + 1;
    }
    assert(all.take(pieces.len() as int) =~= all);
    assert(texts(out@) =~= path_steps(path@));
    out
}

/// Whether two paths are the same, step by step.
pub fn paths_match(a: &str, b: &str) -> (r: bool)
    ensures
        r == same_path(a@, b@),
{
    if starts_at_root(a) != starts_at_root(b) {
        return false;
    }
    let left = steps(a);
    let right = steps(b);
    assert(texts(left@).len() == left.len() && texts(right@).len() == right.len());
    if left.len() != right.len() {
        return false;
    }
    let mut i: usize = 0;
    while i < left.len()
        invariant
            i <= left.len(),
            left.len() == right.len(),
            texts(left@) == path_steps(a@),
            texts(right@) == path_steps(b@),
            forall|k: int| 0 <= k < i ==> (#[trigger] left@[k])@ == right@[k]@,
        decreases left.len() - i,
    {
        if !same(left[i].as_str(), right[i].as_str()) {
            assert(texts(left@)[i as int] != texts(right@)[i as int]);
            return false;
        }
        i = i + 1;
    }
    assert forall|k: int| 0 <= k < left.len() implies #[trigger] texts(left@)[k] == texts(right@)[k] by {
        assert(left@[k]@ == right@[k]@);
    }
    assert(texts(left@) =~= texts(right@));
    true
}

fn find_disk(disks: &Vec<DiskInfo>, path: &str) -> (r: Option<usize>)
    ensures
        match r {
            Some(i) => i < disks.len() && disk_at(disks@, path@) == Some(disks@[i as int])
                && disks@[i as int].mount is Some,
            None => disk_at(disks@, path@) is None,
        },
{
    let mut i: usize = 0;
    assert(disks@.skip(0) =~= disks@);
    while i < disks.len()
        invariant
            i <= disks.len(),
            disk_at(disks@, path@) == disk_at(disks@.skip(i as int), path@),
        decreases disks.len() - i,
    {
        assert(disks@.skip(i as int).first() == disks@[i as int]);
        assert(disks@.skip(i as int).drop_first() =~= disks@.skip(i + 1));
        if let Some(mount) = &disks[i].mount {
            if paths_match(mount.as_str(), path) {
                return Some(i);
            }
        }
        i = i + 1;
    }
    None
}

impl HostMonitor {
    /// A monitor that looks at the disk mounted at `want_mount`.
    pub fn new(want_mount: &str) -> (r: Self)
        ensures
            r@ == want_mount@,
    {
        HostMonitor { want_mount: want_mount.to_string() }
    }

    /// A sample from the host's figures. The disk is the one mounted at the wanted place,
    /// else the one at the root; without either its space is zero and its place `?`. The
    /// host's name is `?` where it is not known.
    pub fn sample(
        &self,
        cpu_pct: Reading,
        mem_used: u64,
        mem_total: u64,
        disks: &Vec<DiskInfo>,
        hostname: Option<&str>,
    ) -> (r: HostStats)
        ensures
            r.cpu_pct == cpu_pct,
            r.mem_used == mem_used,
            r.mem_total == mem_total,
            match chosen_disk(disks@, self@) {
                Some(disk) => r.disk_total == disk.total && r.disk_used == space_used(disk)
                    && r.disk_mount@ == disk.mount->0@,
                None => r.disk_total == 0 && r.disk_used == 0 && r.disk_mount@ == "?"@,
            },
            r.hostname@ == match hostname {
                Some(name) => name@,
                None => "?"@,
            },
    {
        let at = match find_disk(disks, self.want_mount.as_str()) {
            Some(i) => Some(i),
            None => find_disk(disks, "/"),
        };
        let (disk_total, disk_used, disk_mount) = match at {
            Some(i) => {
                let disk = &disks[i];
                let used: u64 = if disk.total >= disk.available {
                    disk.total - disk.available
                } else {
                    0
                };
                let mount = match &disk.mount {
                    Some(m) => m.clone(),
                    None => "?".to_string(),
                };
                (disk.total, used, mount)
            },
            None => (0, 0, "?".to_string()),
        };
        HostStats {
            cpu_pct,
            mem_used,
            mem_total,
            disk_used,
            disk_total,
            disk_mount,
            hostname: match hostname {
                Some(name) => name.to_string(),
                None => "?".to_string(),
            },
        }
    }
}

} // verus!
