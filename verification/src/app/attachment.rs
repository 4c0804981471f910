//! Attachments waiting for the next message.
//!
//! Pure state: `/image` registers a path verbatim and `Ctrl+V` hands over bytes
//! that were already decoded.

use vstd::prelude::*;

use super::ratio::{one_decimal, share, share_tenths, shares_are_close, with_decimal};
use crate::api::types::TuiRecoveryAttachment;
use crate::strs;
use crate::strs::{decimal, join, numeral_value};

verus! {

/// One image queued for the next user message.
#[derive(Clone, Debug, PartialEq, Eq)]
pub enum PendingAttachment {
    /// A path registered by `/image`, read when the message is sent.
    Path(String),
    /// An image already decoded.
    Image {
        media_type: String,
        bytes: Vec<u8>,
        /// Where it came from, for the echo.
        origin: String,
    },
}

/// An attachment as a mathematical value.
pub enum AttachmentView {
    Path(Seq<char>),
    Image { media_type: Seq<char>, bytes: Seq<u8>, origin: Seq<char> },
}

impl DeepView for PendingAttachment {
    type V = AttachmentView;

    open spec fn deep_view(&self) -> AttachmentView {
        match self {
            PendingAttachment::Path(path) => AttachmentView::Path(path@),
            PendingAttachment::Image { media_type, bytes, origin } => AttachmentView::Image {
                media_type: media_type@,
                bytes: bytes@,
                origin: origin@,
            },
        }
    }
}

impl DeepView for TuiRecoveryAttachment {
    type V = AttachmentView;

    open spec fn deep_view(&self) -> AttachmentView {
        match self {
            TuiRecoveryAttachment::Path(path) => AttachmentView::Path(path@),
            TuiRecoveryAttachment::Image { media_type, bytes, origin } => AttachmentView::Image {
                media_type: media_type@,
                bytes: bytes@,
                origin: origin@,
            },
        }
    }
}

/// Byte counts as the echo shows them: whole bytes, then kilobytes and megabytes
/// with one decimal.
pub open spec fn byte_text(len: usize) -> Seq<char> {
    if len < 1024 {
        decimal(len as nat) + " B"@
    } else if len < 1024 * 1024 {
        one_decimal(share(len as u64, 1024)) + " KB"@
    } else {
        one_decimal(share(len as u64, 1048576)) + " MB"@
    }
}

/// Byte counts as the echo shows them.
pub fn human_bytes(len: usize) -> (text: String)
    ensures
        text@ == byte_text(len),
{
    if len < 1024 {
        strs::cat(strs::number(len as u64).as_str(), " B")
    } else if len < 1024 * 1024 {
        strs::cat(with_decimal(share_tenths(len as u64, 1024)).as_str(), " KB")
    } else {
        strs::cat(with_decimal(share_tenths(len as u64, 1048576)).as_str(), " MB")
    }
}

/// How an attachment is named: a path by itself, an image by its origin, type
/// and size.
pub open spec fn label_of(attachment: AttachmentView) -> Seq<char> {
    match attachment {
        AttachmentView::Path(path) => path,
        AttachmentView::Image { media_type, bytes, origin } => origin + " ("@ + media_type + ", "@
            + byte_text(bytes.len() as usize) + ")"@,
    }
}

fn copy_bytes(bytes: &Vec<u8>) -> (copy: Vec<u8>)
    ensures
        copy@ == bytes@,
{
    let mut copy: Vec<u8> = Vec::new();
    let mut i: usize = 0;
    while i < bytes.len()
        invariant
            i <= bytes.len(),
            copy@ == bytes@.take(i as int),
        decreases bytes.len() - i,
    {
        copy.push(bytes[i]);
        proof {
            assert(copy@ =~= bytes@.take(i as int + 1));
        }
        i += 1;
    }
    proof {
        assert(copy@ =~= bytes@);
    }
    copy
}

impl PendingAttachment {
    pub fn label(&self) -> (text: String)
        ensures
            text@ == label_of(self.deep_view()),
    {
        match self {
            PendingAttachment::Path(path) => path.clone(),
            PendingAttachment::Image { media_type, bytes, origin } => {
                let mut text = strs::cat3(origin.as_str(), " (", media_type.as_str());
                text.push_str(", ");
                text.push_str(human_bytes(bytes.len()).as_str());
                text.push_str(")");
                text
            },
        }
    }

    pub fn copy(&self) -> (copy: PendingAttachment)
        ensures
            copy.deep_view() == self.deep_view(),
    {
        match self {
            PendingAttachment::Path(path) => PendingAttachment::Path(path.clone()),
            PendingAttachment::Image { media_type, bytes, origin } => PendingAttachment::Image {
                media_type: media_type.clone(),
                bytes: copy_bytes(bytes),
                origin: origin.clone(),
            },
        }
    }

    /// An attachment kept over a restart, queued again.
    pub fn from_recovery(kept: TuiRecoveryAttachment) -> (attachment: PendingAttachment)
        ensures
            attachment.deep_view() == kept.deep_view(),
    {
        match kept {
            TuiRecoveryAttachment::Path(path) => PendingAttachment::Path(path),
            TuiRecoveryAttachment::Image { media_type, bytes, origin } => PendingAttachment::Image {
                media_type,
                bytes,
                origin,
            },
        }
    }

    /// A queued attachment, kept over a restart.
    pub fn into_recovery(self) -> (kept: TuiRecoveryAttachment)
        ensures
            kept.deep_view() == self.deep_view(),
    {
        match self {
            PendingAttachment::Path(path) => TuiRecoveryAttachment::Path(path),
            PendingAttachment::Image { media_type, bytes, origin } => TuiRecoveryAttachment::Image {
                media_type,
                bytes,
                origin,
            },
        }
    }
}

pub fn copy_attachments(items: &Vec<PendingAttachment>) -> (copy: Vec<PendingAttachment>)
    ensures
        copy.deep_view() == items.deep_view(),
{
    let mut copy: Vec<PendingAttachment> = Vec::new();
    let mut i: usize = 0;
    while i < items.len()
        invariant
            i <= items.len(),
            copy.len() == i,
            forall|k: int|
                0 <= k < i ==> (#[trigger] copy@[k]).deep_view() == items@[k].deep_view(),
        decreases items.len() - i,
    {
        copy.push(items[i].copy());
        i += 1;
    }
    proof {
        assert(copy.deep_view() =~= items.deep_view());
    }
    copy
}

/// Every attachment kept over a restart, queued again in order.
pub fn from_recoveries(kept: Vec<TuiRecoveryAttachment>) -> (items: Vec<PendingAttachment>)
    ensures
        items.deep_view() == kept.deep_view(),
{
    let ghost all = kept.deep_view();
    let mut kept = kept;
    let mut items: Vec<PendingAttachment> = Vec::new();
    while kept.len() > 0
        invariant
            kept.deep_view() + items.deep_view() == all,
        decreases kept.len(),
    {
        let ghost before = items.deep_view();
        let ghost left = kept.deep_view();
        if let Some(last) = kept.pop() {
            let item = PendingAttachment::from_recovery(last);
            items.insert(0, item);
            proof {
                assert(left.last() == item.deep_view());
                assert(kept.deep_view() =~= left.drop_last());
                assert(items.deep_view() =~= seq![item.deep_view()] + before);
                assert(kept.deep_view() + items.deep_view() =~= all);
            }
        }
    }
    proof {
        assert(items.deep_view() =~= all);
    }
    items
}

/// Every queued attachment, kept over a restart in order.
pub fn into_recoveries(items: Vec<PendingAttachment>) -> (kept: Vec<TuiRecoveryAttachment>)
    ensures
        kept.deep_view() == items.deep_view(),
{
    let ghost all = items.deep_view();
    let mut items = items;
    let mut kept: Vec<TuiRecoveryAttachment> = Vec::new();
    while items.len() > 0
        invariant
            items.deep_view() + kept.deep_view() == all,
        decreases items.len(),
    {
        let ghost before = kept.deep_view();
        let ghost left = items.deep_view();
        if let Some(last) = items.pop() {
            let item = last.into_recovery();
            kept.insert(0, item);
            proof {
                assert(left.last() == item.deep_view());
                assert(items.deep_view() =~= left.drop_last());
                assert(kept.deep_view() =~= seq![item.deep_view()] + before);
                assert(items.deep_view() + kept.deep_view() =~= all);
            }
        }
    }
    proof {
        assert(kept.deep_view() =~= all);
    }
    kept
}

/// The queue shown above the input and drained on submit.
#[derive(Debug)]
pub struct Attachments {
    pub items: Vec<PendingAttachment>,
}

/// The labels of all attachments.
pub open spec fn labels_of(items: Seq<AttachmentView>) -> Seq<Seq<char>> {
    items.map_values(|a: AttachmentView| label_of(a))
}

impl Attachments {
    /// The queued attachments, as mathematical values.
    pub open spec fn queued(&self) -> Seq<AttachmentView> {
        self.items.deep_view()
    }

    pub fn new() -> (attachments: Attachments)
        ensures
            attachments.queued() == Seq::<AttachmentView>::empty(),
    {
        let attachments = Attachments { items: Vec::new() };
        proof {
            assert(attachments.queued() =~= Seq::<AttachmentView>::empty());
        }
        attachments
    }

    pub fn push(&mut self, attachment: PendingAttachment)
        ensures
            final(self).queued() == old(self).queued().push(attachment.deep_view()),
    {
        self.items.push(attachment);
        proof {
            assert(self.queued() =~= old(self).queued().push(attachment.deep_view()));
        }
    }

    pub fn extend(&mut self, attachments: Vec<PendingAttachment>)
        ensures
            final(self).queued() == old(self).queued() + attachments.deep_view(),
    {
        let ghost added = attachments.deep_view();
        let mut attachments = attachments;
        self.items.append(&mut attachments);
        proof {
            assert(self.queued() =~= old(self).queued() + added);
        }
    }

    /// Hands the queue to the send path; the queue starts empty again.
    pub fn take(&mut self) -> (items: Vec<PendingAttachment>)
        ensures
            items.deep_view() == old(self).queued(),
            final(self).queued() == Seq::<AttachmentView>::empty(),
    {
        let mut items: Vec<PendingAttachment> = Vec::new();
        std::mem::swap(&mut items, &mut self.items);
        proof {
            assert(self.queued() =~= Seq::<AttachmentView>::empty());
        }
        items
    }

    pub fn len(&self) -> (len: usize)
        ensures
            len == self.queued().len(),
    {
        self.items.len()
    }

    pub fn is_empty(&self) -> (yes: bool)
        ensures
            yes == (self.queued().len() == 0),
    {
        self.items.len() == 0
    }

    pub fn labels(&self) -> (labels: Vec<String>)
        ensures
            labels.deep_view() == labels_of(self.queued()),
    {
        let ghost all = self.queued();
        let mut labels: Vec<String> = Vec::new();
        let mut i: usize = 0;
        while i < self.items.len()
            invariant
                i <= self.items.len(),
                all == self.queued(),
                labels.len() == i,
                forall|k: int| 0 <= k < i ==> (#[trigger] labels@[k])@ == label_of(all[k]),
            decreases self.items.len() - i,
        {
            labels.push(self.items[i].label());
            i += 1;
        }
        proof {
            assert(labels.deep_view() =~= labels_of(all));
        }
        labels
    }

    /// The row shown above the input while attachments wait.
    pub fn summary(&self) -> (row: Option<String>)
        ensures
            row.deep_view() == (if self.queued().len() == 0 {
                None
            } else {
                Some(join(labels_of(self.queued()), "  ·  "@))
            }),
    {
        if self.items.len() == 0 {
            return None;
        }
        Some(strs::joined(&self.labels(), "  ·  "))
    }
}

impl Default for Attachments {
    fn default() -> (attachments: Attachments)
        ensures
            attachments.queued() == Seq::<AttachmentView>::empty(),
    {
        Attachments::new()
    }
}

/// Whether a text tells `len` in units of `unit`, to the tenth.
pub open spec fn told_in(text: Seq<char>, len: usize, unit: nat, name: Seq<char>) -> bool {
    exists|n: nat|
        text == #[trigger] one_decimal(n) + name && n * unit < 10 * len + unit && n * unit + unit
            > 10 * len
}

/// A size below a kilobyte is told in bytes, one below a megabyte in kilobytes
/// and any other in megabytes, these two to the tenth.
pub proof fn sizes_are_told_in_their_unit(len: usize)
    requires
        len < 0x1_0000_0000_0000,
    ensures
        len < 1024 ==> byte_text(len).skip(byte_text(len).len() - 2) == " B"@ && numeral_value(
            byte_text(len).take(byte_text(len).len() - 2),
        ) == len,
        1024 <= len < 1048576 ==> told_in(byte_text(len), len, 1024, " KB"@),
        1048576 <= len ==> told_in(byte_text(len), len, 1048576, " MB"@),
{
    reveal_strlit(" B");
    if len < 1024 {
        let digits = decimal(len as nat);
        strs::numerals_read_back(len as nat);
        assert(byte_text(len).take(byte_text(len).len() - 2) =~= digits);
        assert(byte_text(len).skip(byte_text(len).len() - 2) =~= " B"@);
    } else if len < 1048576 {
        shares_are_close(len as u64, 1024);
        assert(byte_text(len) == one_decimal(share(len as u64, 1024)) + " KB"@);
    } else {
        shares_are_close(len as u64, 1048576);
        assert(byte_text(len) == one_decimal(share(len as u64, 1048576)) + " MB"@);
    }
}

/// A queued path is named as it was typed; a pasted image by where it came from,
/// its media type and its size, in that order.
pub proof fn labels_name_their_attachment(
    path: Seq<char>,
    origin: Seq<char>,
    media_type: Seq<char>,
    bytes: Seq<u8>,
)
    ensures
        label_of(AttachmentView::Path(path)) == path,
        origin.is_prefix_of(label_of(AttachmentView::Image { media_type, bytes, origin })),
        label_of(AttachmentView::Image { media_type, bytes, origin }).skip(origin.len() as int)
            == " ("@ + media_type + ", "@ + byte_text(bytes.len() as usize) + ")"@,
{
    let label = label_of(AttachmentView::Image { media_type, bytes, origin });
    let rest = " ("@ + media_type + ", "@ + byte_text(bytes.len() as usize) + ")"@;
    assert(label =~= origin + rest);
    assert(label.skip(origin.len() as int) =~= rest);
}

} // verus!
