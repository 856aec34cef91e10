//! Laws of paths and of the disk that is looked at.
use vstd::prelude::*;

use crate::host::{
    chosen_disk, disk_at, is_step, path_steps, rooted, same_path, space_used, DiskInfo,
};
use crate::laws::text::{law_cut_on_both_sides, law_text_is_cut_at_a_character};
use crate::text::{cut_at, only};

verus! {

/// The steps of a path are those before a slash and those behind it; without a slash it is
/// one step. An empty step leads nowhere, and so does a dot, but for one at the very
/// beginning.
pub proof fn law_paths_are_made_of_steps(a: Seq<char>, b: Seq<char>, p: Seq<char>)
    ensures
        path_steps(a + seq!['/'] + b) == path_steps(a) + path_steps(seq!['/'] + b),
        !p.contains('/') ==> path_steps(p) == if p.len() == 0 {
            Seq::empty()
        } else {
            seq![p]
        },
        !p.contains('/') ==> path_steps(seq!['/'] + p) == if p.len() == 0 || p == seq!['.'] {
            Seq::empty()
        } else {
            seq![p]
        },
{
    reveal_strlit(".");
    assert("."@ =~= seq!['.']);
    let test = |piece: Seq<char>| is_step(piece);
    let none = Seq::<char>::empty();
    law_cut_on_both_sides(a, '/', b, only('/'));
    law_cut_on_both_sides(none, '/', b, only('/'));
    law_cut_on_both_sides(b, '/', a, only('/'));
    law_text_is_cut_at_a_character(none, '/', b);
    law_text_is_cut_at_a_character(none, '/', p);
    assert(none + seq!['/'] + b =~= seq!['/'] + b);
    assert(none + seq!['/'] + p =~= seq!['/'] + p);
    let (pa, pb) = (cut_at(a, '/'), cut_at(b, '/'));
    Seq::filter_distributes_over_add(pa, pb, test);
    Seq::filter_distributes_over_add(seq![none], pb, test);
    lemma_one_step(none);
    assert(seq![none].filter(test) =~= Seq::empty());
    assert((seq![none] + pb).filter(test) =~= pb.filter(test));
    assert((pa + pb)[0] == pa[0]);
    assert((seq![none] + pb)[0] == none);
    assert(path_steps(seq!['/'] + b) =~= pb.filter(test));
    assert(path_steps(a + seq!['/'] + b) =~= path_steps(a) + path_steps(seq!['/'] + b));
    if !p.contains('/') {
        law_text_is_cut_at_a_character(p, '/', p);
        lemma_one_step(p);
        Seq::filter_distributes_over_add(seq![none], seq![p], test);
        assert((seq![none] + seq![p])[0] == none);
        assert(path_steps(p) =~= if p.len() == 0 {
            Seq::empty()
        } else {
            seq![p]
        });
        assert(path_steps(seq!['/'] + p) =~= seq![p].filter(test));
    }
}

proof fn lemma_one_step(p: Seq<char>)
    ensures
        seq![p].filter(|piece: Seq<char>| is_step(piece)) == if is_step(p) {
            seq![p]
        } else {
            Seq::empty()
        },
{
    reveal(Seq::filter);
    let test = |piece: Seq<char>| is_step(piece);
    assert(seq![p].drop_last() =~= Seq::empty());
    assert(seq![p].filter(test) =~= if is_step(p) {
        seq![p]
    } else {
        Seq::empty()
    }) by {
        assert(Seq::<Seq<char>>::empty().filter(test) =~= Seq::empty());
    }
}

/// Two paths are the same exactly if both or neither begin with a slash and their steps are
/// the same; a slash more behind one changes nothing.
pub proof fn law_same_paths(a: Seq<char>, b: Seq<char>)
    ensures
        same_path(a, b) <==> (a.len() > 0 && a[0] == '/') == (b.len() > 0 && b[0] == '/') && path_steps(
            a,
        ) == path_steps(b),
        rooted(a) <==> a.len() > 0 && a[0] == '/',
        a.len() > 0 ==> same_path(a, a + seq!['/']),
{
    let none = Seq::<char>::empty();
    law_paths_are_made_of_steps(a, none, none);
    assert(a + seq!['/'] + none =~= a + seq!['/']);
    assert(seq!['/'] + none =~= seq!['/']);
    assert(path_steps(a) + Seq::empty() =~= path_steps(a));
}

/// The disk at a place is the first one that is mounted there.
pub proof fn law_disk_at_a_place(disks: Seq<DiskInfo>, path: Seq<char>, i: int)
    ensures
        0 <= i < disks.len() && mounted(disks[i], path) && (forall|j: int|
            0 <= j < i ==> !mounted(#[trigger] disks[j], path)) ==> disk_at(disks, path) == Some(
            disks[i],
        ),
        (forall|j: int| 0 <= j < disks.len() ==> !mounted(#[trigger] disks[j], path)) ==> disk_at(
            disks,
            path,
        ) is None,
    decreases disks.len(),
{
    if disks.len() > 0 {
        let rest = disks.drop_first();
        law_disk_at_a_place(rest, path, i - 1);
        assert forall|j: int| 0 <= j < rest.len() implies #[trigger] rest[j] == disks[j + 1] by {}
        if forall|j: int| 0 <= j < disks.len() ==> !mounted(#[trigger] disks[j], path) {
            assert(!mounted(disks[0], path));
        }
        if 0 < i < disks.len() && (forall|j: int| 0 <= j < i ==> !mounted(#[trigger] disks[j], path)) {
            assert(!mounted(disks[0], path));
            assert(rest[i - 1] == disks[i]);
        }
    }
}

/// Whether a disk is mounted at a place.
pub open spec fn mounted(disk: DiskInfo, path: Seq<char>) -> bool {
    disk.mount is Some && same_path(disk.mount->0@, path)
}

/// The disk that is looked at is the one at the wanted place; only where there is none is it
/// the one at the root, and none where there is neither.
pub proof fn law_disk_looked_at(disks: Seq<DiskInfo>, want: Seq<char>)
    ensures
        disk_at(disks, want) is Some ==> chosen_disk(disks, want) == disk_at(disks, want),
        disk_at(disks, want) is None ==> chosen_disk(disks, want) == disk_at(disks, "/"@),
{
}

/// What is used of a disk and what is available make the whole; nothing is used where more
/// is available than there is.
pub proof fn law_space_used(disk: DiskInfo)
    ensures
        disk.available <= disk.total ==> space_used(disk) + disk.available == disk.total,
        disk.available > disk.total ==> space_used(disk) == 0,
{
}

} // verus!
