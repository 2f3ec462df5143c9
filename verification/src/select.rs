//! Choosing the active member among the named files of a bundle: the last
//! file of the primary application, else the last of the first fallback,
//! else the last of the second.
use vstd::prelude::*;

verus! {

/// The application a bundle member belongs to, as read from its name.
#[derive(Clone, Copy, PartialEq, Eq, Structural, Debug)]
pub enum AppId {
    Signal,
    NotificationServiceExtension,
    ShareAppExtension,
}

/// The greatest index holding `a`, if `a` occurs at all.
pub open spec fn last_index_of(ids: Seq<AppId>, a: AppId) -> Option<int>
    decreases ids.len(),
{
    if ids.len() == 0 {
        Option::None
    } else if ids[ids.len() - 1] == a {
        Option::Some(ids.len() - 1)
    } else {
        last_index_of(ids.drop_last(), a)
    }
}

pub proof fn lemma_last_index_of_props(ids: Seq<AppId>, a: AppId)
    ensures
        match last_index_of(ids, a) {
            Option::Some(i) => 0 <= i < ids.len() && ids[i] == a && forall|j: int|
                i < j < ids.len() ==> ids[j] != a,
            Option::None => forall|j: int| 0 <= j < ids.len() ==> ids[j] != a,
        },
    decreases ids.len(),
{
    if ids.len() > 0 && ids[ids.len() - 1] != a {
        lemma_last_index_of_props(ids.drop_last(), a);
        match last_index_of(ids.drop_last(), a) {
            Option::Some(i) => {
                assert(ids.drop_last()[i] == ids[i]);
                assert forall|j: int| i < j < ids.len() implies ids[j] != a by {
                    if j < ids.len() - 1 {
                        assert(ids.drop_last()[j] == ids[j]);
                        assert(ids.drop_last()[j] != a);
                    }
                }
            },
            Option::None => {
                assert forall|j: int| 0 <= j < ids.len() implies ids[j] != a by {
                    if j < ids.len() - 1 {
                        assert(ids.drop_last()[j] == ids[j]);
                        assert(ids.drop_last()[j] != a);
                    }
                }
            },
        }
    }
}

/// The selection rule over the member list in name order: the last index of
/// the primary application; if it never occurs, the last of the notification
/// service extension; if that never occurs either, the last of the share
/// extension. `None` exactly when no member belongs to any of the three.
pub open spec fn active_file_choice(ids: Seq<AppId>) -> Option<int> {
    match last_index_of(ids, AppId::Signal) {
        Option::Some(i) => Option::Some(i),
        Option::None => match last_index_of(ids, AppId::NotificationServiceExtension) {
            Option::Some(i) => Option::Some(i),
            Option::None => last_index_of(ids, AppId::ShareAppExtension),
        },
    }
}

fn last_index(ids: &Vec<AppId>, a: AppId) -> (r: Option<usize>)
    ensures
        match r {
            Some(i) => last_index_of(ids@, a) == Option::Some(i as int) && i < ids@.len(),
            None => last_index_of(ids@, a) is None,
        },
{
    let mut i = ids.len();
    proof {
        assert(ids@.subrange(0, ids@.len() as int) =~= ids@);
    }
    while i > 0
        invariant
            i <= ids@.len(),
            last_index_of(ids@, a) == last_index_of(ids@.subrange(0, i as int), a),
        decreases i,
    {
        let ghost prefix = ids@.subrange(0, i as int);
        proof {
            assert(prefix[i - 1] == ids@[i - 1]);
        }
        if ids[i - 1] == a {
            return Some(i - 1);
        }
        proof {
            assert(prefix.drop_last() =~= ids@.subrange(0, i - 1));
        }
        i = i - 1;
    }
    proof {
        assert(ids@.subrange(0, 0).len() == 0);
    }
    None
}

/// Pick the active member among the listed applications, given in member
/// name order.
pub fn active_file_index(ids: &Vec<AppId>) -> (r: Option<usize>)
    ensures
        match r {
            Some(i) => active_file_choice(ids@) == Option::Some(i as int) && i < ids@.len(),
            None => active_file_choice(ids@) is None,
        },
{
    match last_index(ids, AppId::Signal) {
        Some(i) => Some(i),
        None => match last_index(ids, AppId::NotificationServiceExtension) {
            Some(i) => Some(i),
            None => last_index(ids, AppId::ShareAppExtension),
        },
    }
}

} // verus!
