//! The notices that the application shows for a few seconds.

use vstd::prelude::*;
use vstd::string::StringExecFns;

verus! {

/// The kind of a notice.
#[derive(Debug, Clone, Copy, PartialEq, Eq, Structural)]
pub enum ToastType {
    Success,
    Error,
    Info,
}

/// A notice: its text, its kind, and the number by which it is removed.
#[derive(Debug, Clone, PartialEq)]
pub struct Toast {
    pub message: String,
    pub toast_type: ToastType,
    pub id: usize,
}

/// The time in milliseconds after which a notice is removed.
pub const TOAST_LIFETIME_MS: u64 = 3000;

/// The time in milliseconds after which a notice begins to fade.
pub const TOAST_FADE_AFTER_MS: u64 = 2700;

/// The time in milliseconds that a notice takes to fade when it is closed.
pub const TOAST_FADE_MS: u64 = 300;

/// The notices without those of the number `id`, in order.
pub open spec fn without_id(toasts: Seq<Toast>, id: usize) -> Seq<Toast>
    decreases toasts.len(),
{
    if toasts.len() == 0 {
        Seq::<Toast>::empty()
    } else if toasts.last().id == id {
        without_id(toasts.drop_last(), id)
    } else {
        without_id(toasts.drop_last(), id).push(toasts.last())
    }
}

/// Shows a notice: it joins the notices at the end under the next number,
/// which is returned, and the counter moves on by one.
pub fn show_toast(
    toasts: &mut Vec<Toast>,
    counter: &mut usize,
    message: String,
    toast_type: ToastType,
) -> (id: usize)
    requires
        *old(counter) < usize::MAX,
    ensures
        id == *old(counter),
        *final(counter) == id + 1,
        final(toasts)@ == old(toasts)@.push(Toast { message, toast_type, id }),
{
    let id = *counter;
    *counter = id + 1;
    toasts.push(Toast { message, toast_type, id });
    id
}

/// Shows a notice of success.
pub fn show_success(toasts: &mut Vec<Toast>, counter: &mut usize, message: String) -> (id: usize)
    requires
        *old(counter) < usize::MAX,
    ensures
        id == *old(counter),
        *final(counter) == id + 1,
        final(toasts)@ == old(toasts)@.push(
            Toast { message, toast_type: ToastType::Success, id },
        ),
{
    show_toast(toasts, counter, message, ToastType::Success)
}

/// Shows a notice of an error.
pub fn show_error(toasts: &mut Vec<Toast>, counter: &mut usize, message: String) -> (id: usize)
    requires
        *old(counter) < usize::MAX,
    ensures
        id == *old(counter),
        *final(counter) == id + 1,
        final(toasts)@ == old(toasts)@.push(Toast { message, toast_type: ToastType::Error, id }),
{
    show_toast(toasts, counter, message, ToastType::Error)
}

/// Shows a notice that informs.
pub fn show_info(toasts: &mut Vec<Toast>, counter: &mut usize, message: String) -> (id: usize)
    requires
        *old(counter) < usize::MAX,
    ensures
        id == *old(counter),
        *final(counter) == id + 1,
        final(toasts)@ == old(toasts)@.push(Toast { message, toast_type: ToastType::Info, id }),
{
    show_toast(toasts, counter, message, ToastType::Info)
}

/// Removes the notices with the number `id`; the others stay in order.
pub fn remove_toast(toasts: &mut Vec<Toast>, id: usize)
    ensures
        final(toasts)@ == without_id(old(toasts)@, id),
{
    let ghost all = toasts@;
    let ghost mut seen: int = 0;
    let mut i: usize = 0;
    proof {
        assert(all.take(0) =~= Seq::<Toast>::empty());
        assert(all.skip(0) =~= all);
    }
    while i < toasts.len()
        invariant
            0 <= seen <= all.len(),
            i == without_id(all.take(seen), id).len(),
            toasts@ == without_id(all.take(seen), id) + all.skip(seen),
        decreases toasts.len() - i,
    {
        proof {
            assert(toasts@[i as int] == all.skip(seen)[0]);
            assert(seen < all.len());
            let next = all.take(seen + 1);
            assert(next.drop_last() =~= all.take(seen));
            assert(next.last() == all[seen]);
        }
        let ghost before = toasts@;
        if toasts[i].id == id {
            toasts.remove(i);
            proof {
                assert(toasts@ =~= without_id(all.take(seen + 1), id) + all.skip(seen + 1));
            }
        } else {
            proof {
                assert(toasts@ =~= without_id(all.take(seen + 1), id) + all.skip(seen + 1));
            }
            i += 1;
        }
        proof {
            seen = seen + 1;
        }
    }
    proof {
        assert(all.skip(seen).len() == 0);
        assert(all.take(seen) =~= all);
        assert(toasts@ =~= without_id(all, id));
    }
}

/// The style class of a notice of the given kind.
pub open spec fn class_of(toast_type: ToastType) -> Seq<char> {
    match toast_type {
        ToastType::Success => "toast toast-success"@,
        ToastType::Error => "toast toast-error"@,
        ToastType::Info => "toast toast-info"@,
    }
}

/// The style class of a notice: that of its kind, with ` fade-out` behind
/// it while the notice fades.
pub fn toast_class(toast_type: ToastType, fading: bool) -> (class: String)
    ensures
        class@ == if fading {
            class_of(toast_type) + " fade-out"@
        } else {
            class_of(toast_type)
        },
{
    let base = match toast_type {
        ToastType::Success => "toast toast-success",
        ToastType::Error => "toast toast-error",
        ToastType::Info => "toast toast-info",
    };
    let mut class = String::from_str(base);
    if fading {
        class.append(" fade-out");
    }
    class
}

/// The sign that stands before the text of a notice.
pub fn toast_icon(toast_type: ToastType) -> (icon: char)
    ensures
        icon == match toast_type {
            ToastType::Success => '\u{2713}',
            ToastType::Error => '\u{2715}',
            ToastType::Info => '\u{2139}',
        },
{
    match toast_type {
        ToastType::Success => '\u{2713}',
        ToastType::Error => '\u{2715}',
        ToastType::Info => '\u{2139}',
    }
}

} // verus!
