//! What was signalled reads back.

use vstd::prelude::*;

#[allow(unused_imports)]
use crate::document::{
    are_attributes, around, close, elem, finds, lacks, leaf, lemma_absent, lemma_around,
    lemma_attribute, lemma_attribute_lookup, lemma_avoids_append, lemma_close, lemma_elem,
    lemma_escaped_no_tag, lemma_escaped_unquoted, lemma_flat_append, lemma_inside, lemma_leaf,
    lemma_literal_attribute, lemma_literals, lemma_lookup, lemma_nothing, lemma_open,
    lemma_qualified, lemma_read_escaped, lemma_text_only, lemma_writes_append, name, open, shows,
    writes, Tag,
};
#[allow(unused_imports)]
use crate::envelope::{carried_in, user_message, wrapped, MessageView, Stamp};
#[allow(unused_imports)]
use crate::error::Refusal;
#[allow(unused_imports)]
use crate::flat::{
    avoids, even, flat, is_quotable, lemma_even_append, lemma_even_plain, lemma_even_quoted, no_tag,
};
#[allow(unused_imports)]
use crate::markup::{attributes_in, first_named, is_quote, render, Piece};
#[allow(unused_imports)]
use crate::round_trip::{
    lemma_carried, lemma_carried_among, lemma_described, lemma_user, lemma_user_message, readable,
    user_content, user_pieces,
};
#[allow(unused_imports)]
use crate::scan::value_in;
#[allow(unused_imports)]
use crate::signal::{
    error_attributes, error_of, kept_in, receipt_of, reference_to, signal_in, signal_info,
    SignalView,
};
#[allow(unused_imports)]
use crate::xml::{
    escaped, is_mark, is_prefix, nothing_to_keep, tagged, unescape_undoes_escape, unmarked,
};

verus! {

/// `eb:RefToMessageId` as pieces, where a message is answered.
#[verifier::opaque]
spec fn reference_pieces(prefix: Seq<char>, ref_to: Option<Seq<char>>) -> Seq<Piece> {
    match ref_to {
        Some(id) => leaf(prefix, Tag::RefToMessageId, Seq::empty(), escaped(id)),
        None => Seq::empty(),
    }
}

proof fn lemma_reference_pieces(prefix: Seq<char>, ref_to: Option<Seq<char>>)
    requires
        is_prefix(prefix),
    ensures
        writes(reference_pieces(prefix, ref_to), reference_to(prefix, ref_to)),
        forall|s: Tag|
            s != Tag::RefToMessageId && s != Tag::MessageId ==> #[trigger] avoids(
                reference_pieces(prefix, ref_to),
                name(s),
            ),
        ref_to is None ==> avoids(reference_pieces(prefix, ref_to), name(Tag::RefToMessageId)),
{
    reveal(reference_pieces);
    lemma_nothing();
    if let Some(id) = ref_to {
        lemma_escaped_no_tag(id);
        lemma_leaf(prefix, Tag::RefToMessageId, Seq::empty(), escaped(id));
    }
}

/// The `eb:MessageInfo` of a signal as pieces.
#[verifier::opaque]
spec fn signal_info_pieces(
    prefix: Seq<char>,
    ref_to: Option<Seq<char>>, stamp: Stamp,
) -> Seq<Piece> {
    around(
        prefix,
        Tag::MessageInfo,
        leaf(prefix, Tag::Timestamp, Seq::empty(), escaped(stamp.timestamp@)) + leaf(
            prefix,
            Tag::MessageId,
            Seq::empty(),
            escaped(stamp.message_id@),
        ) + reference_pieces(prefix, ref_to),
    )
}

proof fn lemma_signal_info(prefix: Seq<char>, ref_to: Option<Seq<char>>, stamp: Stamp)
    requires
        is_prefix(prefix),
    ensures
        writes(signal_info_pieces(prefix, ref_to, stamp), signal_info(prefix, ref_to, stamp)),
        forall|s: Tag|
            s != Tag::MessageInfo && s != Tag::Timestamp && s != Tag::MessageId && s
                != Tag::RefToMessageId ==> #[trigger] avoids(
                signal_info_pieces(prefix, ref_to, stamp),
                name(s),
            ),
        ref_to is None ==> avoids(
            signal_info_pieces(prefix, ref_to, stamp),
            name(Tag::RefToMessageId),
        ),
{
    reveal(signal_info_pieces);
    let none = Seq::<char>::empty();
    lemma_escaped_no_tag(stamp.timestamp@);
    lemma_escaped_no_tag(stamp.message_id@);
    lemma_leaf(prefix, Tag::Timestamp, none, escaped(stamp.timestamp@));
    lemma_leaf(prefix, Tag::MessageId, none, escaped(stamp.message_id@));
    lemma_reference_pieces(prefix, ref_to);
    let a = leaf(prefix, Tag::Timestamp, none, escaped(stamp.timestamp@));
    let b = leaf(prefix, Tag::MessageId, none, escaped(stamp.message_id@));
    let c = reference_pieces(prefix, ref_to);
    lemma_writes_append(a, render(a), b, render(b));
    lemma_writes_append(a + b, render(a) + render(b), c, render(c));
    lemma_around(prefix, Tag::MessageInfo, a + b + c, render(a) + render(b) + render(c));
    assert forall|s: Tag|
        s != Tag::MessageInfo && s != Tag::Timestamp && s != Tag::MessageId && (s
            != Tag::RefToMessageId || ref_to is None) implies #[trigger] avoids(
        signal_info_pieces(prefix, ref_to, stamp),
        name(s),
    ) by {
        assert(avoids(a, name(s)));
        assert(avoids(b, name(s)));
        assert(avoids(c, name(s)));
        lemma_avoids_append(a, b, name(s));
        lemma_avoids_append(a + b, c, name(s));
    }
}

/// The parts of a signal's `MessageInfo` are flat, and each is itself only.
proof fn lemma_signal_info_parts(prefix: Seq<char>, ref_to: Option<Seq<char>>, stamp: Stamp)
    requires
        is_prefix(prefix),
    ensures
        no_tag(escaped(stamp.timestamp@)),
        no_tag(escaped(stamp.message_id@)),
        flat(leaf(prefix, Tag::Timestamp, Seq::empty(), escaped(stamp.timestamp@))),
        flat(leaf(prefix, Tag::MessageId, Seq::empty(), escaped(stamp.message_id@))),
        flat(reference_pieces(prefix, ref_to)),
        avoids(
            leaf(prefix, Tag::Timestamp, Seq::empty(), escaped(stamp.timestamp@)),
            name(Tag::MessageId),
        ),
        avoids(
            leaf(prefix, Tag::Timestamp, Seq::empty(), escaped(stamp.timestamp@)),
            name(Tag::RefToMessageId),
        ),
        avoids(
            leaf(prefix, Tag::MessageId, Seq::empty(), escaped(stamp.message_id@)),
            name(Tag::RefToMessageId),
        ),
{
    let none = Seq::<char>::empty();
    lemma_escaped_no_tag(stamp.timestamp@);
    lemma_escaped_no_tag(stamp.message_id@);
    lemma_leaf(prefix, Tag::Timestamp, none, escaped(stamp.timestamp@));
    lemma_leaf(prefix, Tag::MessageId, none, escaped(stamp.message_id@));
    lemma_reference_pieces(prefix, ref_to);
}

/// The id of a signal is found, whatever follows its `MessageInfo`.
proof fn lemma_find_signal_id(
    prefix: Seq<char>,
    ref_to: Option<Seq<char>>, stamp: Stamp, post: Seq<Piece>,
)
    requires
        is_prefix(prefix),
        flat(post),
    ensures
        finds(
            render(signal_info_pieces(prefix, ref_to, stamp) + post),
            "MessageId"@,
            Some(escaped(stamp.message_id@)),
        ),
{
    reveal(signal_info_pieces);
    let none = Seq::<char>::empty();
    let nothing = Seq::<Piece>::empty();
    let a = leaf(prefix, Tag::Timestamp, none, escaped(stamp.timestamp@));
    let b = leaf(prefix, Tag::MessageId, none, escaped(stamp.message_id@));
    let c = reference_pieces(prefix, ref_to);
    lemma_nothing();
    lemma_signal_info_parts(prefix, ref_to, stamp);
    assert(signal_info_pieces(prefix, ref_to, stamp) + post =~= nothing + around(
        prefix,
        Tag::MessageInfo,
        a + b + c,
    ) + post);
    lemma_inside(
        prefix,
        nothing,
        Tag::MessageInfo,
        a,
        Tag::MessageId,
        none,
        escaped(stamp.message_id@),
        nothing,
        c,
        post,
        none,
    );
    lemma_text_only(escaped(stamp.message_id@));
}

/// What a signal answers is found, whatever follows its `MessageInfo`.
proof fn lemma_find_reference(prefix: Seq<char>, id: Seq<char>, stamp: Stamp, post: Seq<Piece>)
    requires
        is_prefix(prefix),
        flat(post),
    ensures
        finds(
            render(signal_info_pieces(prefix, Some(id), stamp) + post),
            "RefToMessageId"@,
            Some(escaped(id)),
        ),
{
    reveal(signal_info_pieces);
    reveal(reference_pieces);
    let none = Seq::<char>::empty();
    let nothing = Seq::<Piece>::empty();
    let a = leaf(prefix, Tag::Timestamp, none, escaped(stamp.timestamp@));
    let b = leaf(prefix, Tag::MessageId, none, escaped(stamp.message_id@));
    let c = leaf(prefix, Tag::RefToMessageId, none, escaped(id));
    lemma_nothing();
    lemma_signal_info_parts(prefix, Some(id), stamp);
    lemma_escaped_no_tag(id);
    lemma_flat_append(a, b);
    lemma_avoids_append(a, b, name(Tag::RefToMessageId));
    assert(signal_info_pieces(prefix, Some(id), stamp) + post == nothing + around(
        prefix,
        Tag::MessageInfo,
        (a + b) + c + nothing,
    ) + post) by {
        assert((a + b) + c + nothing =~= a + b + c);
        assert(signal_info_pieces(prefix, Some(id), stamp) + post =~= nothing + signal_info_pieces(
            prefix,
            Some(id),
            stamp,
        ) + post);
    }
    lemma_inside(
        prefix,
        nothing,
        Tag::MessageInfo,
        a + b,
        Tag::RefToMessageId,
        none,
        escaped(id),
        nothing,
        nothing,
        post,
        none,
    );
    lemma_text_only(escaped(id));
}

/// What a Receipt holds, as pieces.
#[verifier::opaque]
spec fn receipt_pieces(prefix: Seq<char>, m: MessageView) -> Seq<Piece> {
    around(prefix, Tag::Receipt, around(prefix, Tag::UserMessage, user_pieces(prefix, m)))
}

proof fn lemma_receipt_pieces(prefix: Seq<char>, m: MessageView)
    requires
        is_prefix(prefix),
    ensures
        writes(
            receipt_pieces(prefix, m),
            tagged(prefix, "Receipt"@, Seq::empty(), user_message(prefix, m)),
        ),
        avoids(receipt_pieces(prefix, m), name(Tag::SignalMessage)),
        avoids(around(prefix, Tag::UserMessage, user_pieces(prefix, m)), name(Tag::Receipt)),
        flat(around(prefix, Tag::UserMessage, user_pieces(prefix, m))),
{
    reveal(receipt_pieces);
    lemma_user_message(prefix, m);
    lemma_user(prefix, m);
    lemma_around(prefix, Tag::UserMessage, user_pieces(prefix, m), user_content(prefix, m));
    let u = around(prefix, Tag::UserMessage, user_pieces(prefix, m));
    lemma_around(prefix, Tag::Receipt, u, user_message(prefix, m));
    assert(avoids(user_pieces(prefix, m), name(Tag::SignalMessage)));
    assert(avoids(user_pieces(prefix, m), name(Tag::Receipt)));
    assert(avoids(u, name(Tag::SignalMessage)));
    assert(avoids(u, name(Tag::Receipt)));
}

/// What is read of an element of a signal that was written.
proof fn lemma_kept(signal: Seq<char>, n: Seq<char>, text: Option<Seq<char>>)
    requires
        finds(
            signal,
            n,
            match text {
                Some(t) => Some(escaped(t)),
                None => None,
            },
        ),
    ensures
        kept_in(signal, n) == text,
{
    reveal(crate::document::finds);
    if let Some(t) = text {
        unescape_undoes_escape(t);
        nothing_to_keep(escaped(t));
    }
}

/// A signal with a Receipt in it is read as one.
proof fn lemma_read_receipt(
    envelope: Seq<char>,
    signal: Seq<char>,
    inner: Seq<char>,
    ref_to: Seq<char>,
    message_id: Seq<char>,
)
    requires
        finds(envelope, "SignalMessage"@, Some(signal)),
        finds(signal, "Receipt"@, Some(inner)),
        kept_in(signal, "RefToMessageId"@) == Some(ref_to),
        kept_in(signal, "MessageId"@) == Some(message_id),
    ensures
        signal_in(envelope) == Ok::<SignalView, Refusal>(
            SignalView::Receipt { ref_to, message_id },
        ),
{
    reveal(crate::document::finds);
}

/// A signal with no Receipt and an Error in it is read as an Error.
proof fn lemma_read_error(
    envelope: Seq<char>,
    signal: Seq<char>,
    ref_to: Option<Seq<char>>,
    code: Seq<char>,
    description: Seq<char>,
)
    requires
        finds(envelope, "SignalMessage"@, Some(signal)),
        lacks(signal, "Receipt"@),
        kept_in(signal, "RefToMessageId"@) == ref_to,
        shows(signal, "Error"@, "errorCode"@, Ok(Some(code))),
        kept_in(signal, "Description"@) == Some(description),
    ensures
        signal_in(envelope) == Ok::<SignalView, Refusal>(
            SignalView::Error { ref_to, code, description },
        ),
{
    reveal(crate::document::finds);
    reveal(crate::document::lacks);
    reveal(crate::document::shows);
}

/// A signal of two parts is found in its envelope.
proof fn lemma_find_signal(
    prefix: Seq<char>,
    a: Seq<Piece>,
    info: Seq<char>,
    b: Seq<Piece>,
    said: Seq<char>,
)
    requires
        is_prefix(prefix),
        writes(a, info),
        writes(b, said),
        avoids(a, name(Tag::SignalMessage)),
        avoids(b, name(Tag::SignalMessage)),
    ensures
        finds(
            wrapped(prefix, tagged(prefix, "SignalMessage"@, Seq::empty(), info + said)),
            "SignalMessage"@,
            Some(render(a + b)),
        ),
{
    lemma_writes_append(a, info, b, said);
    lemma_avoids_append(a, b, name(Tag::SignalMessage));
    lemma_carried(prefix, Tag::SignalMessage, a + b);
}

/// What a Receipt holds is found.
proof fn lemma_find_receipt(prefix: Seq<char>, a: Seq<Piece>, inner: Seq<Piece>)
    requires
        is_prefix(prefix),
        flat(a),
        flat(inner),
        avoids(a, name(Tag::Receipt)),
        avoids(inner, name(Tag::Receipt)),
    ensures
        finds(render(a + around(prefix, Tag::Receipt, inner)), "Receipt"@, Some(render(inner))),
{
    let none = Seq::<char>::empty();
    let nothing = Seq::<Piece>::empty();
    lemma_nothing();
    lemma_lookup(prefix, a, Tag::Receipt, none, none, inner, nothing);
    assert(a + around(prefix, Tag::Receipt, inner) + nothing =~= a + around(
        prefix,
        Tag::Receipt,
        inner,
    ));
    lemma_text_only(render(inner));
}

/// A Receipt reads back as one that names the message it answers, whatever
/// that message is and under whatever prefix it was written.
#[verifier::rlimit(30)]
pub proof fn a_receipt_names_the_message_it_answers(prefix: Seq<char>, m: MessageView, stamp: Stamp)
    requires
        is_prefix(prefix),
    ensures
        signal_in(receipt_of(prefix, m, stamp)) == Ok::<SignalView, Refusal>(
            SignalView::Receipt { ref_to: m.message_id, message_id: stamp.message_id@ },
        ),
{
    let a = signal_info_pieces(prefix, Some(m.message_id), stamp);
    let b = receipt_pieces(prefix, m);
    let u = around(prefix, Tag::UserMessage, user_pieces(prefix, m));
    let signal = render(a + b);
    lemma_signal_info(prefix, Some(m.message_id), stamp);
    lemma_receipt_pieces(prefix, m);
    assert(avoids(a, name(Tag::SignalMessage)));
    assert(avoids(a, name(Tag::Receipt)));
    lemma_find_signal(
        prefix,
        a,
        signal_info(prefix, Some(m.message_id), stamp),
        b,
        tagged(prefix, "Receipt"@, Seq::empty(), user_message(prefix, m)),
    );
    lemma_find_receipt(prefix, a, u);
    assert(b == around(prefix, Tag::Receipt, u)) by {
        reveal(receipt_pieces);
    }
    lemma_find_reference(prefix, m.message_id, stamp, b);
    lemma_kept(signal, "RefToMessageId"@, Some(m.message_id));
    lemma_find_signal_id(prefix, Some(m.message_id), stamp, b);
    lemma_kept(signal, "MessageId"@, Some(stamp.message_id@));
    lemma_read_receipt(
        receipt_of(prefix, m, stamp),
        signal,
        render(u),
        m.message_id,
        stamp.message_id@,
    );
}

/// What stands round the message in a Receipt is flat, and no message.
proof fn lemma_around_receipt(prefix: Seq<char>, a: Seq<Piece>)
    requires
        is_prefix(prefix),
        flat(a),
        avoids(a, name(Tag::UserMessage)),
    ensures
        flat(
            seq![open(prefix, Tag::SignalMessage, Seq::empty(), Seq::empty())] + a + seq![
                open(prefix, Tag::Receipt, Seq::empty(), Seq::empty()),
            ],
        ),
        avoids(
            seq![open(prefix, Tag::SignalMessage, Seq::empty(), Seq::empty())] + a + seq![
                open(prefix, Tag::Receipt, Seq::empty(), Seq::empty()),
            ],
            name(Tag::UserMessage),
        ),
        flat(seq![close(prefix, Tag::Receipt), close(prefix, Tag::SignalMessage)]),
{
    let none = Seq::<char>::empty();
    let n = name(Tag::UserMessage);
    let p = seq![open(prefix, Tag::SignalMessage, none, none)];
    let q = seq![open(prefix, Tag::Receipt, none, none)];
    lemma_open(prefix, Tag::SignalMessage, none, none);
    lemma_open(prefix, Tag::Receipt, none, none);
    lemma_close(prefix, Tag::SignalMessage);
    lemma_close(prefix, Tag::Receipt);
    assert(flat(p) && flat(q) && avoids(p, n) && avoids(q, n) && flat(
        seq![close(prefix, Tag::Receipt), close(prefix, Tag::SignalMessage)],
    )) by {
        reveal(crate::flat::flat);
        reveal(crate::flat::avoids);
    }
    lemma_flat_append(p, a);
    lemma_flat_append(p + a, q);
    lemma_avoids_append(p, a, n);
    lemma_avoids_append(p + a, q, n);
}

/// The message a Receipt was made for is found in it.
#[verifier::rlimit(30)]
proof fn lemma_find_copy(prefix: Seq<char>, a: Seq<Piece>, inner: Seq<Piece>)
    requires
        is_prefix(prefix),
        flat(a),
        flat(inner),
        avoids(a, name(Tag::UserMessage)),
        avoids(inner, name(Tag::UserMessage)),
    ensures
        finds(
            wrapped(
                prefix,
                tagged(
                    prefix,
                    "SignalMessage"@,
                    Seq::empty(),
                    render(a) + tagged(
                        prefix,
                        "Receipt"@,
                        Seq::empty(),
                        tagged(prefix, "UserMessage"@, Seq::empty(), render(inner)),
                    ),
                ),
            ),
            "UserMessage"@,
            Some(render(inner)),
        ),
{
    let none = Seq::<char>::empty();
    let u = around(prefix, Tag::UserMessage, inner);
    let r = around(prefix, Tag::Receipt, u);
    let written = tagged(prefix, "UserMessage"@, Seq::empty(), render(inner));
    lemma_around(prefix, Tag::UserMessage, inner, render(inner));
    lemma_around(prefix, Tag::Receipt, u, written);
    lemma_writes_append(a, render(a), r, render(r));
    lemma_around(prefix, Tag::SignalMessage, a + r, render(a) + render(r));
    let left = seq![open(prefix, Tag::SignalMessage, none, none)] + a + seq![
        open(prefix, Tag::Receipt, none, none),
    ];
    let right = seq![close(prefix, Tag::Receipt), close(prefix, Tag::SignalMessage)];
    lemma_around_receipt(prefix, a);
    lemma_carried_among(prefix, left, Tag::UserMessage, inner, right);
    assert(left + u + right =~= around(prefix, Tag::SignalMessage, a + r)) by {
        reveal(crate::document::elem);
    }
}

/// A Receipt carries a copy of the message it answers: what is read off its
/// envelope as a User Message is that message, wherever the message reads
/// back at all.
pub proof fn a_receipt_carries_the_message_it_answers(
    prefix: Seq<char>,
    m: MessageView,
    stamp: Stamp,
)
    requires
        is_prefix(prefix),
    ensures
        readable(m) <==> carried_in(receipt_of(prefix, m, stamp)) == Ok::<MessageView, Refusal>(m),
{
    let a = signal_info_pieces(prefix, Some(m.message_id), stamp);
    lemma_signal_info(prefix, Some(m.message_id), stamp);
    assert(avoids(a, name(Tag::UserMessage)));
    lemma_user_message(prefix, m);
    lemma_user(prefix, m);
    assert(avoids(user_pieces(prefix, m), name(Tag::UserMessage)));
    lemma_find_copy(prefix, a, user_pieces(prefix, m));
    lemma_described(prefix, m);
    reveal(crate::document::finds);
}

/// What an Error holds, as pieces.
#[verifier::opaque]
spec fn error_pieces(prefix: Seq<char>, code: Seq<char>, description: Seq<char>) -> Seq<Piece> {
    elem(
        prefix,
        Tag::Error,
        error_attributes(code),
        Seq::empty(),
        leaf(prefix, Tag::Description, " xml:lang=\"en\""@, escaped(description)),
    )
}

/// An attribute is even.
proof fn lemma_quoted_attribute(key: Seq<char>, value: Seq<char>)
    requires
        unmarked(key),
        is_quotable(value),
    ensures
        even(" "@ + key + "=\""@ + value + "\""@),
{
    reveal_strlit(" ");
    reveal_strlit("=\"");
    reveal_strlit("\"");
    let head = " "@ + key + seq!['='];
    assert forall|i: int| 0 <= i < head.len() implies #[trigger] head[i] != '>' && head[i] != '<'
            && !is_quote(head[i]) by {
        if 1 <= i < 1 + key.len() {
            assert(head[i] == key[i - 1]);
            assert(!is_mark(key[i - 1]));
        }
    }
    lemma_even_plain(head);
    lemma_even_quoted(value);
    lemma_even_append(head, seq!['"'] + value + seq!['"']);
    assert(" "@ + key + "=\""@ + value + "\""@ =~= head + (seq!['"'] + value + seq!['"']));
}

/// One attribute with the space before it.
spec fn spaced(key: Seq<char>, value: Seq<char>) -> Seq<char> {
    " "@ + key + "=\""@ + value + "\""@
}

/// What stands on an Error after its code.
spec fn after_code() -> Seq<char> {
    spaced("origin"@, "ebMS"@) + spaced("severity"@, "failure"@)
}

/// The attributes of an Error, one by one.
proof fn lemma_error_attributes(code: Seq<char>)
    ensures
        error_attributes(code) == spaced("category"@, "Content"@) + (spaced(
            "errorCode"@,
            escaped(code),
        ) + after_code()),
{
    reveal_strlit("category");
    reveal_strlit("Content");
    reveal_strlit("errorCode");
    reveal_strlit("origin");
    reveal_strlit("ebMS");
    reveal_strlit("severity");
    reveal_strlit("failure");
    reveal_strlit(" ");
    reveal_strlit("=\"");
    reveal_strlit("\"");
    reveal_strlit(" category=\"Content\" errorCode=\"");
    reveal_strlit("\" origin=\"ebMS\" severity=\"failure\"");
    let head = spaced("category"@, "Content"@) + (" "@ + "errorCode"@ + "=\""@);
    assert(head =~= " category=\"Content\" errorCode=\""@);
    let tail = "\""@ + after_code();
    assert(tail =~= "\" origin=\"ebMS\" severity=\"failure\""@);
    assert(spaced("category"@, "Content"@) + (spaced("errorCode"@, escaped(code)) + after_code())
        =~= head + escaped(code) + tail);
}

/// The attributes of an Error are what may stand in a tag after the name.
proof fn lemma_error_are_attributes(code: Seq<char>)
    ensures
        are_attributes(error_attributes(code)),
{
    reveal_strlit("category");
    reveal_strlit("Content");
    reveal_strlit("errorCode");
    reveal_strlit("origin");
    reveal_strlit("ebMS");
    reveal_strlit("severity");
    reveal_strlit("failure");
    reveal_strlit(" ");
    reveal_strlit("\"");
    lemma_error_attributes(code);
    lemma_escaped_unquoted(code);
    let category = spaced("category"@, "Content"@);
    let errors = spaced("errorCode"@, escaped(code));
    let origin = spaced("origin"@, "ebMS"@);
    let severity = spaced("severity"@, "failure"@);
    lemma_quoted_attribute("category"@, "Content"@);
    lemma_quoted_attribute("errorCode"@, escaped(code));
    lemma_quoted_attribute("origin"@, "ebMS"@);
    lemma_quoted_attribute("severity"@, "failure"@);
    lemma_even_append(origin, severity);
    lemma_even_append(errors, origin + severity);
    lemma_even_append(category, errors + (origin + severity));
    assert(severity.last() == '"');
    assert(error_attributes(code).last() == severity.last());
    assert(error_attributes(code)[0] == category[0]);
}

/// The code of an Error is read back.
#[verifier::rlimit(30)]
proof fn lemma_code(prefix: Seq<char>, code: Seq<char>)
    requires
        is_prefix(prefix),
    ensures
        are_attributes(error_attributes(code)),
        value_in(prefix + name(Tag::Error) + error_attributes(code), "errorCode"@) == Ok::<
            Option<Seq<char>>,
            Refusal,
        >(Some(code)),
{
    let none = Seq::<char>::empty();
    let key = "errorCode"@;
    let written = escaped(code);
    let qualified = prefix + name(Tag::Error);
    let category = spaced("category"@, "Content"@);
    let errors = spaced(key, written);
    let after = after_code();
    lemma_error_are_attributes(code);
    lemma_error_attributes(code);
    lemma_literals();
    assert(unmarked(name(Tag::Error)));
    lemma_qualified(prefix, name(Tag::Error));
    lemma_escaped_unquoted(code);
    assert(unmarked("category"@) && "category"@.len() == 8 && unmarked(key) && key.len() == 9) by {
        reveal_strlit("category");
        reveal_strlit("errorCode");
    }
    assert(forall|i: int| 0 <= i < "Content"@.len() ==> #[trigger] "Content"@[i] != '"') by {
        reveal_strlit("Content");
    }
    assert(qualified + error_attributes(code) =~= qualified + category + (errors + after));
    lemma_attribute(qualified, "category"@, "Content"@, errors + after);
    lemma_attribute(none, key, written, after);
    assert(none + errors + after =~= errors + after);
    let all = attributes_in(qualified + error_attributes(code));
    let rest = attributes_in(errors + after);
    assert(all[0] == ("category"@, "Content"@));
    assert(all.drop_first() =~= rest);
    assert(rest[0] == (key, written));
    assert(first_named(rest, key) == Some(written));
    assert(first_named(all, key) == Some(written));
    lemma_read_escaped(code);
}

proof fn lemma_error_pieces(prefix: Seq<char>, code: Seq<char>, description: Seq<char>)
    requires
        is_prefix(prefix),
    ensures
        writes(
            error_pieces(prefix, code, description),
            tagged(
                prefix,
                "Error"@,
                error_attributes(code),
                tagged(prefix, "Description"@, " xml:lang=\"en\""@, escaped(description)),
            ),
        ),
        forall|s: Tag|
            s != Tag::Error && s != Tag::Description ==> #[trigger] avoids(
                error_pieces(prefix, code, description),
                name(s),
            ),
        no_tag(escaped(description)),
        are_attributes(" xml:lang=\"en\""@),
        flat(leaf(prefix, Tag::Description, " xml:lang=\"en\""@, escaped(description))),
{
    reveal(error_pieces);
    reveal_strlit(" xml:lang=\"en\"");
    reveal_strlit(" xml:lang=");
    reveal_strlit("en");
    lemma_literal_attribute(" xml:lang="@, "en"@);
    let lang = " xml:lang=\"en\""@;
    assert(lang =~= " xml:lang="@ + (seq!['"'] + "en"@ + seq!['"']));
    let none = Seq::<char>::empty();
    lemma_code(prefix, code);
    lemma_escaped_no_tag(description);
    lemma_leaf(prefix, Tag::Description, lang, escaped(description));
    let d = leaf(prefix, Tag::Description, lang, escaped(description));
    lemma_elem(prefix, Tag::Error, error_attributes(code), none, d);
    lemma_text_only(render(d));
    assert forall|s: Tag| s != Tag::Error && s != Tag::Description implies #[trigger] avoids(
        error_pieces(prefix, code, description),
        name(s),
    ) by {
        assert(avoids(d, name(s)));
        assert(avoids(elem(prefix, Tag::Error, error_attributes(code), none, d), name(s)));
    }
}

/// The description of an Error is found.
proof fn lemma_find_description(
    prefix: Seq<char>,
    ref_to: Option<Seq<char>>,
    code: Seq<char>,
    description: Seq<char>,
    stamp: Stamp,
)
    requires
        is_prefix(prefix),
    ensures
        finds(
            render(signal_info_pieces(prefix, ref_to, stamp) + error_pieces(
                prefix,
                code,
                description,
            )),
            "Description"@,
            Some(escaped(description)),
        ),
        shows(
            render(signal_info_pieces(prefix, ref_to, stamp) + error_pieces(
                prefix,
                code,
                description,
            )),
            "Error"@,
            "errorCode"@,
            Ok(Some(code)),
        ),
{
    let none = Seq::<char>::empty();
    let nothing = Seq::<Piece>::empty();
    let lang = " xml:lang=\"en\""@;
    let a = signal_info_pieces(prefix, ref_to, stamp);
    let d = leaf(prefix, Tag::Description, lang, escaped(description));
    let p = seq![open(prefix, Tag::Error, error_attributes(code), none)];
    let q = seq![close(prefix, Tag::Error)];
    lemma_nothing();
    lemma_signal_info(prefix, ref_to, stamp);
    lemma_error_pieces(prefix, code, description);
    lemma_code(prefix, code);
    lemma_open(prefix, Tag::Error, error_attributes(code), none);
    lemma_close(prefix, Tag::Error);
    assert(flat(p) && flat(q) && avoids(p, name(Tag::Description))) by {
        reveal(crate::flat::flat);
        reveal(crate::flat::avoids);
    }
    lemma_flat_append(a, p);
    assert(avoids(a, name(Tag::Description)));
    assert(avoids(a, name(Tag::Error)));
    lemma_avoids_append(a, p, name(Tag::Description));
    lemma_lookup(prefix, a + p, Tag::Description, lang, escaped(description), nothing, q);
    assert((a + p) + d + q =~= a + error_pieces(prefix, code, description)) by {
        reveal(error_pieces);
        reveal(crate::document::elem);
    }
    lemma_text_only(escaped(description));
    lemma_attribute_lookup(
        prefix,
        a,
        Tag::Error,
        error_attributes(code),
        none,
        d,
        nothing,
        "errorCode"@,
    );
    assert(a + elem(
        prefix,
        Tag::Error,
        error_attributes(code),
        none,
        d,
    ) + nothing =~= a + error_pieces(
        prefix,
        code,
        description,
    )) by {
        reveal(error_pieces);
    }
}

/// An Error reads back with its code, its description and the message it is
/// about, whatever they say and under whatever prefix it was written.
#[verifier::rlimit(30)]
pub proof fn an_error_reads_back(
    prefix: Seq<char>,
    ref_to: Option<Seq<char>>,
    code: Seq<char>,
    description: Seq<char>,
    stamp: Stamp,
)
    requires
        is_prefix(prefix),
    ensures
        signal_in(error_of(prefix, ref_to, code, description, stamp)) == Ok::<SignalView, Refusal>(
            SignalView::Error { ref_to, code, description },
        ),
{
    let a = signal_info_pieces(prefix, ref_to, stamp);
    let b = error_pieces(prefix, code, description);
    lemma_signal_info(prefix, ref_to, stamp);
    lemma_error_pieces(prefix, code, description);
    assert(avoids(a, name(Tag::SignalMessage)));
    assert(avoids(b, name(Tag::SignalMessage)));
    lemma_find_signal(prefix, a, render(a), b, render(b));
    lemma_flat_append(a, b);
    let signal = render(a + b);
    assert(avoids(a, name(Tag::Receipt)));
    assert(avoids(b, name(Tag::Receipt)));
    lemma_avoids_append(a, b, name(Tag::Receipt));
    lemma_absent(a + b, Tag::Receipt);
    match ref_to {
        Some(id) => lemma_find_reference(prefix, id, stamp, b),
        None => {
            assert(avoids(b, name(Tag::RefToMessageId)));
            lemma_avoids_append(a, b, name(Tag::RefToMessageId));
            lemma_absent(a + b, Tag::RefToMessageId);
        },
    }
    lemma_kept(signal, "RefToMessageId"@, ref_to);
    lemma_find_description(prefix, ref_to, code, description, stamp);
    lemma_kept(signal, "Description"@, Some(description));
    lemma_read_error(
        error_of(prefix, ref_to, code, description, stamp),
        signal,
        ref_to,
        code,
        description,
    );
}

} // verus!
