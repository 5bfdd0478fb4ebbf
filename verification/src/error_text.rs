//! Refusals in words.

use crate::changelog::{ChangelogError, ErrorKind, ErrorView, OpType, Table};
use crate::text;
use crate::text::{append_i64, append_u64, chars_of};
use vstd::prelude::*;
use vstd::string::*;

verus! {

/// The name by which an operation is known in messages.
pub open spec fn op_text(op: OpType) -> Seq<char> {
    match op {
        OpType::CreateSpace => "create_space"@,
        OpType::InviteUser => "invite_user"@,
        OpType::Rekey => "rekey"@,
    }
}

fn op_name(op: OpType) -> (r: &'static str)
    ensures
        r@ == op_text(op),
{
    match op {
        OpType::CreateSpace => "create_space",
        OpType::InviteUser => "invite_user",
        OpType::Rekey => "rekey",
    }
}

/// What `char::escape_debug` returns for `c`.
pub uninterp spec fn char_escape(c: char) -> Seq<char>;

/// `char::escape_debug` of the standard library, written out as a string: the
/// result depends on the character alone.
#[verifier::external_body]
fn escape_char(c: char) -> (r: String)
    ensures
        r@ == char_escape(c),
{
    c.escape_debug().to_string()
}

/// Whether `c` stands for itself between quotes: the printable ASCII characters
/// except the quote and the backslash.
pub open spec fn is_plain(c: char) -> bool {
    ' ' <= c && c <= '~' && c != '"' && c != '\\'
}

/// A character as it stands between quotes. Beyond ASCII and among the control
/// characters, which ones can be printed is for the standard library to say.
pub open spec fn escaped_char(c: char) -> Seq<char> {
    if is_plain(c) {
        seq![c]
    } else if c == '"' {
        "\\\""@
    } else if c == '\\' {
        "\\\\"@
    } else if c == '\n' {
        "\\n"@
    } else if c == '\r' {
        "\\r"@
    } else if c == '\t' {
        "\\t"@
    } else {
        char_escape(c)
    }
}

/// A text as it stands between quotes.
pub open spec fn escaped_text(text: Seq<char>) -> Seq<char>
    decreases text.len(),
{
    if text.len() == 0 {
        Seq::empty()
    } else {
        escaped_text(text.drop_last()) + escaped_char(text.last())
    }
}

/// A name in quotes.
pub open spec fn quoted_text(name: Seq<char>) -> Seq<char> {
    "\""@ + escaped_text(name) + "\""@
}

/// Names in quotes, separated by commas, in square brackets.
pub open spec fn list_text(names: Seq<Seq<char>>) -> Seq<char> {
    "["@ + items_text(names) + "]"@
}

/// Names in quotes, separated by commas.
pub open spec fn items_text(names: Seq<Seq<char>>) -> Seq<char>
    decreases names.len(),
{
    if names.len() == 0 {
        Seq::empty()
    } else if names.len() == 1 {
        quoted_text(names[0])
    } else {
        items_text(names.drop_last()) + ", "@ + quoted_text(names.last())
    }
}

/// Names of plain characters stand between the quotes as they are.
pub proof fn law_plain_names_stay(name: Seq<char>)
    requires
        forall|i: int| 0 <= i < name.len() ==> is_plain(#[trigger] name[i]),
    ensures
        escaped_text(name) == name,
    decreases name.len(),
{
    if name.len() > 0 {
        law_plain_names_stay(name.drop_last());
        assert(is_plain(name.last()));
        assert(name =~= name.drop_last() + seq![name.last()]);
    } else {
        assert(name =~= Seq::<char>::empty());
    }
}

/// Appends a name in quotes.
pub fn append_quoted(out: &mut String, name: &str)
    ensures
        final(out)@ == old(out)@ + quoted_text(name@),
{
    let chars = chars_of(name);
    out.append("\"");
    let ghost start = out@;
    let mut i: usize = 0;
    assert(start =~= start + escaped_text(name@.take(0)));
    while i < chars.len()
        invariant
            chars@ == name@,
            i <= chars@.len(),
            out@ == start + escaped_text(name@.take(i as int)),
        decreases chars@.len() - i,
    {
        let c = chars[i];
        let ghost before = out@;
        proof {
            assert(name@.take(i + 1).drop_last() =~= name@.take(i as int));
            assert(name@.take(i + 1).last() == c);
        }
        if c == '"' {
            out.append("\\\"");
        } else if c == '\\' {
            out.append("\\\\");
        } else if c == '\n' {
            out.append("\\n");
        } else if c == '\r' {
            out.append("\\r");
        } else if c == '\t' {
            out.append("\\t");
        } else if ' ' <= c && c <= '~' {
            let own = name.substring_char(i, i + 1);
            assert(own@ =~= seq![c]);
            out.append(own);
        } else {
            let escape = escape_char(c);
            out.append(escape.as_str());
        }
        assert(out@ == before + escaped_char(c));
        assert(out@ =~= start + escaped_text(name@.take(i + 1)));
        i = i + 1;
    }
    assert(name@.take(i as int) =~= name@);
    out.append("\"");
    assert(out@ =~= old(out)@ + quoted_text(name@));
}

/// The first name that a refusal speaks of.
pub open spec fn name_text(names: Seq<Seq<char>>) -> Seq<char> {
    if names.len() == 0 {
        Seq::empty()
    } else {
        names[0]
    }
}

/// A refusal in words: the operation, then the reason.
pub open spec fn message_text(e: ErrorView) -> Seq<char> {
    let start = op_text(e.op) + ": "@;
    match e.kind {
        ErrorKind::ReadsExhausted => start + "no further proven read"@,
        ErrorKind::ReadMismatch => start + "the next proven read is another one"@,
        ErrorKind::UnknownTable => start + "unexpected table '"@ + name_text(e.names) + "'"@,
        ErrorKind::UnexpectedKeyHistory => start + "unexpected _key_history entries"@,
        ErrorKind::NoUserEntries => start + "_users entries must not be empty"@,
        ErrorKind::GrantNotAllowed => start + "channel_grant rows are not allowed"@,
        ErrorKind::UsersNotEmpty => start
            + "users table is not empty — CreateSpace can only be called on an empty space"@,
        ErrorKind::ColumnsDiffer(table) => {
            if e.op == OpType::CreateSpace && table == Table::Retention {
                start + table.text() + " missing columns "@ + list_text(e.names)
            } else {
                start + table.text() + " insert missing columns "@ + list_text(e.names)
            }
        },
        ErrorKind::NoSchemaColumns(table) => start + table.text() + " has no schema columns"@,
        ErrorKind::RaggedRows { entries, columns } => {
            if e.op == OpType::Rekey {
                start + "entry count "@ + text::int_text(entries as int)
                    + " is not a multiple of _retention col_count="@ + text::int_text(
                    columns as int,
                )
            } else {
                start + "_retention entry count "@ + text::int_text(entries as int)
                    + " is not a multiple of col_count="@ + text::int_text(columns as int)
            }
        },
        ErrorKind::SchemaMissing(table) => start + table.text() + " schema is missing"@,
        ErrorKind::NextIdMissing(table) => start + table.text() + " next_id is missing"@,
        ErrorKind::NextIdOverflow(table) => start + table.text() + " next_id overflow"@,
        ErrorKind::NotAPlaceholder { row_id } => start
            + "an inserted row must carry the placeholder row id 0, got "@ + text::int_text(
            row_id as int,
        ),
        ErrorKind::UnknownUser(uid) => start + "no user uid="@ + text::int_text(uid as int),
        ErrorKind::MalformedStatus(uid) => start + "status is not an integer for uid="@
            + text::int_text(uid as int),
        ErrorKind::ProvisionalUser(uid) => start + "not allowed for provisional user uid="@
            + text::int_text(uid as int),
        ErrorKind::NotFullMember { uid, status } => start
            + "the signer must be a full member, uid="@ + text::int_text(uid as int)
            + " has status "@ + text::int_text(status as int),
        ErrorKind::StatusNotInserted => start + "_users.status is missing or not an integer"@,
        ErrorKind::NotProvisional { status } => start
            + "inserted _users.status must be provisional (0 or 3), got "@ + text::int_text(
            status as int,
        ),
        ErrorKind::GrantOnFullInvite { status } => start
            + "channel_grant rows are only allowed on a scoped invite (inserted _users.status 3), got status "@
            + text::int_text(status as int),
        ErrorKind::NonCanonicalGrant => start + "non-canonical channel_grant key '"@ + name_text(
            e.names,
        ) + "'"@,
        ErrorKind::GrantNotForInvitee { uid, invitee } => start
            + "a channel_grant must bind to the invited user uid="@ + text::int_text(
            invitee as int,
        ) + ", got uid="@ + text::int_text(uid as int),
        ErrorKind::GrantNotScoped { uid } => start
            + "a channel_grant must bind to an existing scoped member, got uid="@
            + text::int_text(uid as int),
        ErrorKind::NoRetentionEntries => start + "no retention columns"@,
        ErrorKind::MixedTables => start + "columns target more than one table"@,
        ErrorKind::NotRetention => start + "retention columns target table '"@ + name_text(
            e.names,
        ) + "', expected '_retention'"@,
    }
}

impl ChangelogError {
    /// Appends the first name.
    fn append_name(&self, out: &mut String)
        ensures
            final(out)@ == old(out)@ + name_text(self@.names),
    {
        if self.names.len() > 0 {
            assert(self@.names[0] == self.names@[0]@);
            out.append(self.names[0].as_str());
        } else {
            assert(out@ =~= out@ + Seq::<char>::empty());
        }
    }

    /// Appends the names as a list.
    fn append_list(&self, out: &mut String)
        ensures
            final(out)@ == old(out)@ + list_text(self@.names),
    {
        let ghost names = self@.names;
        out.append("[");
        let ghost start = out@;
        let mut i: usize = 0;
        assert(start =~= start + items_text(names.take(0)));
        while i < self.names.len()
            invariant
                names == self@.names,
                i <= self.names@.len(),
                out@ == start + items_text(names.take(i as int)),
            decreases self.names@.len() - i,
        {
            assert(names.take(i + 1).drop_last() =~= names.take(i as int));
            assert(names[i as int] == self.names@[i as int]@);
            if i > 0 {
                out.append(", ");
            }
            append_quoted(out, self.names[i].as_str());
            assert(out@ =~= start + items_text(names.take(i + 1)));
            i = i + 1;
        }
        assert(names.take(i as int) =~= names);
        out.append("]");
        assert(out@ =~= old(out)@ + list_text(names));
    }

    /// The refusal in words. Missing columns are listed between double quotes with
    /// what cannot stand there escaped; a single name is given as it is.
    pub fn message(&self) -> (r: String)
        ensures
            r@ == message_text(self@),
    {
        let mut out = op_name(self.op).to_owned();
        out.append(": ");
        match self.kind {
            ErrorKind::ReadsExhausted => out.append("no further proven read"),
            ErrorKind::ReadMismatch => out.append("the next proven read is another one"),
            ErrorKind::UnknownTable => {
                out.append("unexpected table '");
                self.append_name(&mut out);
                out.append("'");
            },
            ErrorKind::UnexpectedKeyHistory => out.append("unexpected _key_history entries"),
            ErrorKind::NoUserEntries => out.append("_users entries must not be empty"),
            ErrorKind::GrantNotAllowed => out.append("channel_grant rows are not allowed"),
            ErrorKind::UsersNotEmpty => out.append(
                "users table is not empty — CreateSpace can only be called on an empty space",
            ),
            ErrorKind::ColumnsDiffer(table) => {
                out.append(table.name());
                if self.op == OpType::CreateSpace && table == Table::Retention {
                    out.append(" missing columns ");
                } else {
                    out.append(" insert missing columns ");
                }
                self.append_list(&mut out);
            },
            ErrorKind::NoSchemaColumns(table) => {
                out.append(table.name());
                out.append(" has no schema columns");
            },
            ErrorKind::RaggedRows { entries, columns } => {
                if self.op == OpType::Rekey {
                    out.append("entry count ");
                    append_u64(&mut out, entries as u64);
                    out.append(" is not a multiple of _retention col_count=");
                } else {
                    out.append("_retention entry count ");
                    append_u64(&mut out, entries as u64);
                    out.append(" is not a multiple of col_count=");
                }
                append_u64(&mut out, columns as u64);
            },
            ErrorKind::SchemaMissing(table) => {
                out.append(table.name());
                out.append(" schema is missing");
            },
            ErrorKind::NextIdMissing(table) => {
                out.append(table.name());
                out.append(" next_id is missing");
            },
            ErrorKind::NextIdOverflow(table) => {
                out.append(table.name());
                out.append(" next_id overflow");
            },
            ErrorKind::NotAPlaceholder { row_id } => {
                out.append("an inserted row must carry the placeholder row id 0, got ");
                append_i64(&mut out, row_id);
            },
            ErrorKind::UnknownUser(uid) => {
                out.append("no user uid=");
                append_i64(&mut out, uid);
            },
            ErrorKind::MalformedStatus(uid) => {
                out.append("status is not an integer for uid=");
                append_i64(&mut out, uid);
            },
            ErrorKind::ProvisionalUser(uid) => {
                out.append("not allowed for provisional user uid=");
                append_i64(&mut out, uid);
            },
            ErrorKind::NotFullMember { uid, status } => {
                out.append("the signer must be a full member, uid=");
                append_i64(&mut out, uid);
                out.append(" has status ");
                append_i64(&mut out, status);
            },
            ErrorKind::StatusNotInserted => out.append(
                "_users.status is missing or not an integer",
            ),
            ErrorKind::NotProvisional { status } => {
                out.append("inserted _users.status must be provisional (0 or 3), got ");
                append_i64(&mut out, status);
            },
            ErrorKind::GrantOnFullInvite { status } => {
                out.append(
                    "channel_grant rows are only allowed on a scoped invite (inserted _users.status 3), got status ",
                );
                append_i64(&mut out, status);
            },
            ErrorKind::NonCanonicalGrant => {
                out.append("non-canonical channel_grant key '");
                self.append_name(&mut out);
                out.append("'");
            },
            ErrorKind::GrantNotForInvitee { uid, invitee } => {
                out.append("a channel_grant must bind to the invited user uid=");
                append_i64(&mut out, invitee);
                out.append(", got uid=");
                append_i64(&mut out, uid);
            },
            ErrorKind::GrantNotScoped { uid } => {
                out.append("a channel_grant must bind to an existing scoped member, got uid=");
                append_i64(&mut out, uid);
            },
            ErrorKind::NoRetentionEntries => out.append("no retention columns"),
            ErrorKind::MixedTables => out.append("columns target more than one table"),
            ErrorKind::NotRetention => {
                out.append("retention columns target table '");
                self.append_name(&mut out);
                out.append("', expected '_retention'");
            },
        }
        out
    }
}

/// Escaping goes character by character: a text's escape is that of its parts,
/// one after the other.
pub proof fn law_texts_are_escaped_by_character(a: Seq<char>, b: Seq<char>)
    ensures
        escaped_text(a + b) == escaped_text(a) + escaped_text(b),
    decreases b.len(),
{
    if b.len() == 0 {
        assert(a + b =~= a);
        assert(escaped_text(a) + escaped_text(b) =~= escaped_text(a));
    } else {
        law_texts_are_escaped_by_character(a, b.drop_last());
        assert((a + b).drop_last() =~= a + b.drop_last());
        assert(escaped_text(a + b) =~= escaped_text(a) + escaped_text(b));
    }
}

/// Quotes and backslashes are escaped by a backslash, line ends and tabs by a
/// letter after one; other printable ASCII characters stand for themselves; the
/// rest is escaped as the standard library does.
pub proof fn law_characters_are_escaped(c: char)
    ensures
        escaped_text(seq![c]) == (if c == '"' {
            seq!['\\', '"']
        } else if c == '\\' {
            seq!['\\', '\\']
        } else if c == '\n' {
            seq!['\\', 'n']
        } else if c == '\r' {
            seq!['\\', 'r']
        } else if c == '\t' {
            seq!['\\', 't']
        } else if ' ' <= c && c <= '~' {
            seq![c]
        } else {
            char_escape(c)
        }),
{
    reveal_strlit("\\\"");
    reveal_strlit("\\\\");
    reveal_strlit("\\n");
    reveal_strlit("\\r");
    reveal_strlit("\\t");
    let one = seq![c];
    assert(one.drop_last() =~= Seq::<char>::empty());
    assert(escaped_text(one.drop_last()) =~= Seq::<char>::empty());
    assert(escaped_text(one) =~= escaped_char(c));
    assert("\\\""@ =~= seq!['\\', '"']);
    assert("\\\\"@ =~= seq!['\\', '\\']);
    assert("\\n"@ =~= seq!['\\', 'n']);
    assert("\\r"@ =~= seq!['\\', 'r']);
    assert("\\t"@ =~= seq!['\\', 't']);
}

/// A list holds its names in order, each in quotes, with a comma and a space
/// between two, in square brackets.
pub proof fn law_lists_hold_their_names(names: Seq<Seq<char>>, name: Seq<char>)
    ensures
        list_text(names) == "["@ + items_text(names) + "]"@,
        list_text(Seq::empty()) == "["@ + "]"@,
        items_text(seq![name]) == "\""@ + escaped_text(name) + "\""@,
        names.len() > 0 ==> items_text(names.push(name)) == items_text(names) + ", "@ + ("\""@
            + escaped_text(name) + "\""@),
{
    assert("["@ + Seq::<char>::empty() =~= "["@);
    assert(names.push(name).drop_last() =~= names);
}

/// Whether `part` stands somewhere in `text`.
pub open spec fn mentions(text: Seq<char>, part: Seq<char>) -> bool {
    exists|a: Seq<char>, b: Seq<char>| text == #[trigger] (a + part + b)
}

proof fn lemma_mentions(text: Seq<char>, a: Seq<char>, part: Seq<char>, b: Seq<char>)
    requires
        text == a + part + b,
    ensures
        mentions(text, part),
{
}

proof fn lemma_mentions_last(text: Seq<char>, a: Seq<char>, part: Seq<char>)
    requires
        text == a + part,
    ensures
        mentions(text, part),
{
    assert(text =~= a + part + Seq::<char>::empty());
}

/// A refusal in words starts with the operation, and gives the particulars of
/// its reason: the table, the numbers and the names that the reason speaks of.
pub proof fn law_messages_give_particulars(e: ErrorView)
    ensures
        ({
            let text = message_text(e);
            let op = match e.op {
                OpType::CreateSpace => "create_space"@,
                OpType::InviteUser => "invite_user"@,
                OpType::Rekey => "rekey"@,
            };
            &&& (op + ": "@).is_prefix_of(text)
            &&& match e.kind {
                ErrorKind::ColumnsDiffer(table) => mentions(text, table.text()) && mentions(
                    text,
                    list_text(e.names),
                ),
                ErrorKind::NoSchemaColumns(table) => mentions(text, table.text()),
                ErrorKind::SchemaMissing(table) => mentions(text, table.text()),
                ErrorKind::NextIdMissing(table) => mentions(text, table.text()),
                ErrorKind::NextIdOverflow(table) => mentions(text, table.text()),
                ErrorKind::RaggedRows { entries, columns } => mentions(
                    text,
                    text::int_text(entries as int),
                ) && mentions(text, text::int_text(columns as int)),
                ErrorKind::NotAPlaceholder { row_id } => mentions(
                    text,
                    text::int_text(row_id as int),
                ),
                ErrorKind::UnknownUser(uid) => mentions(text, text::int_text(uid as int)),
                ErrorKind::MalformedStatus(uid) => mentions(text, text::int_text(uid as int)),
                ErrorKind::ProvisionalUser(uid) => mentions(text, text::int_text(uid as int)),
                ErrorKind::NotFullMember { uid, status } => mentions(
                    text,
                    text::int_text(uid as int),
                ) && mentions(text, text::int_text(status as int)),
                ErrorKind::NotProvisional { status } => mentions(
                    text,
                    text::int_text(status as int),
                ),
                ErrorKind::GrantOnFullInvite { status } => mentions(
                    text,
                    text::int_text(status as int),
                ),
                ErrorKind::GrantNotForInvitee { uid, invitee } => mentions(
                    text,
                    "a channel_grant must bind to the invited user uid="@ + text::int_text(
                        invitee as int,
                    ) + ", got uid="@ + text::int_text(uid as int),
                ),
                ErrorKind::GrantNotScoped { uid } => mentions(text, text::int_text(uid as int)),
                ErrorKind::UnknownTable => e.names.len() > 0 ==> mentions(text, e.names[0]),
                ErrorKind::NonCanonicalGrant => e.names.len() > 0 ==> mentions(text, e.names[0]),
                ErrorKind::NotRetention => e.names.len() > 0 ==> mentions(text, e.names[0]),
                _ => true,
            }
        }),
{
    let text = message_text(e);
    let start = op_text(e.op) + ": "@;
    assert(text.subrange(0, start.len() as int) =~= start);
    match e.kind {
        ErrorKind::ColumnsDiffer(table) => {
            let words = if e.op == OpType::CreateSpace && table == Table::Retention {
                " missing columns "@
            } else {
                " insert missing columns "@
            };
            assert(text =~= start + table.text() + (words + list_text(e.names)));
            lemma_mentions(text, start, table.text(), words + list_text(e.names));
            lemma_mentions_last(text, start + table.text() + words, list_text(e.names));
        },
        ErrorKind::NoSchemaColumns(table) => {
            lemma_mentions(text, start, table.text(), " has no schema columns"@);
        },
        ErrorKind::SchemaMissing(table) => {
            lemma_mentions(text, start, table.text(), " schema is missing"@);
        },
        ErrorKind::NextIdMissing(table) => {
            lemma_mentions(text, start, table.text(), " next_id is missing"@);
        },
        ErrorKind::NextIdOverflow(table) => {
            lemma_mentions(text, start, table.text(), " next_id overflow"@);
        },
        ErrorKind::RaggedRows { entries, columns } => {
            let (a, b) = (text::int_text(entries as int), text::int_text(columns as int));
            let (before, between) = if e.op == OpType::Rekey {
                ("entry count "@, " is not a multiple of _retention col_count="@)
            } else {
                ("_retention entry count "@, " is not a multiple of col_count="@)
            };
            assert(text =~= start + before + a + (between + b));
            lemma_mentions(text, start + before, a, between + b);
            lemma_mentions_last(text, start + before + a + between, b);
        },
        ErrorKind::NotAPlaceholder { row_id } => {
            lemma_mentions_last(
                text,
                start + "an inserted row must carry the placeholder row id 0, got "@,
                text::int_text(row_id as int),
            );
        },
        ErrorKind::UnknownUser(uid) => {
            lemma_mentions_last(text, start + "no user uid="@, text::int_text(uid as int));
        },
        ErrorKind::MalformedStatus(uid) => {
            lemma_mentions_last(
                text,
                start + "status is not an integer for uid="@,
                text::int_text(uid as int),
            );
        },
        ErrorKind::ProvisionalUser(uid) => {
            lemma_mentions_last(
                text,
                start + "not allowed for provisional user uid="@,
                text::int_text(uid as int),
            );
        },
        ErrorKind::NotFullMember { uid, status } => {
            let (a, b) = (text::int_text(uid as int), text::int_text(status as int));
            let before = start + "the signer must be a full member, uid="@;
            assert(text =~= before + a + (" has status "@ + b));
            lemma_mentions(text, before, a, " has status "@ + b);
            lemma_mentions_last(text, before + a + " has status "@, b);
        },
        ErrorKind::NotProvisional { status } => {
            lemma_mentions_last(
                text,
                start + "inserted _users.status must be provisional (0 or 3), got "@,
                text::int_text(status as int),
            );
        },
        ErrorKind::GrantOnFullInvite { status } => {
            lemma_mentions_last(
                text,
                start
                    + "channel_grant rows are only allowed on a scoped invite (inserted _users.status 3), got status "@,
                text::int_text(status as int),
            );
        },
        ErrorKind::GrantNotForInvitee { uid, invitee } => {
            let part = "a channel_grant must bind to the invited user uid="@ + text::int_text(
                invitee as int,
            ) + ", got uid="@ + text::int_text(uid as int);
            assert(text =~= start + part);
            lemma_mentions_last(text, start, part);
        },
        ErrorKind::GrantNotScoped { uid } => {
            lemma_mentions_last(
                text,
                start + "a channel_grant must bind to an existing scoped member, got uid="@,
                text::int_text(uid as int),
            );
        },
        ErrorKind::UnknownTable => {
            lemma_mentions(text, start + "unexpected table '"@, name_text(e.names), "'"@);
        },
        ErrorKind::NonCanonicalGrant => {
            lemma_mentions(
                text,
                start + "non-canonical channel_grant key '"@,
                name_text(e.names),
                "'"@,
            );
        },
        ErrorKind::NotRetention => {
            lemma_mentions(
                text,
                start + "retention columns target table '"@,
                name_text(e.names),
                "', expected '_retention'"@,
            );
        },
        _ => {},
    }
}

/// The words of the refusals that a client tells apart by their text.
pub proof fn law_messages_are_worded(
    entries: usize,
    columns: usize,
    names: Seq<Seq<char>>,
    op: OpType,
    status: i64,
)
    ensures
        message_text(
            ErrorView { op: OpType::CreateSpace, kind: ErrorKind::UnexpectedKeyHistory, names },
        ) == "create_space"@ + ": "@ + "unexpected _key_history entries"@,
        message_text(
            ErrorView { op: OpType::InviteUser, kind: ErrorKind::UnexpectedKeyHistory, names },
        ) == "invite_user"@ + ": "@ + "unexpected _key_history entries"@,
        message_text(
            ErrorView { op: OpType::CreateSpace, kind: ErrorKind::NoUserEntries, names },
        ) == "create_space"@ + ": "@ + "_users entries must not be empty"@,
        message_text(ErrorView { op: OpType::InviteUser, kind: ErrorKind::NoUserEntries, names })
            == "invite_user"@ + ": "@ + "_users entries must not be empty"@,
        message_text(
            ErrorView { op: OpType::CreateSpace, kind: ErrorKind::UsersNotEmpty, names },
        ) == "create_space"@ + ": "@
            + "users table is not empty — CreateSpace can only be called on an empty space"@,
        message_text(
            ErrorView { op, kind: ErrorKind::ColumnsDiffer(Table::Users), names },
        ) == op_text(op) + ": "@ + "_users"@ + " insert missing columns "@ + list_text(names),
        message_text(
            ErrorView {
                op: OpType::CreateSpace,
                kind: ErrorKind::ColumnsDiffer(Table::Retention),
                names,
            },
        ) == "create_space"@ + ": "@ + "_retention"@ + " missing columns "@ + list_text(names),
        op != OpType::CreateSpace ==> message_text(
            ErrorView { op, kind: ErrorKind::ColumnsDiffer(Table::Retention), names },
        ) == op_text(op) + ": "@ + "_retention"@ + " insert missing columns "@ + list_text(names),
        message_text(
            ErrorView { op, kind: ErrorKind::NoSchemaColumns(Table::Retention), names },
        ) == op_text(op) + ": "@ + "_retention"@ + " has no schema columns"@,
        op != OpType::Rekey ==> message_text(
            ErrorView { op, kind: ErrorKind::RaggedRows { entries, columns }, names },
        ) == op_text(op) + ": "@ + "_retention entry count "@ + text::int_text(entries as int)
            + " is not a multiple of col_count="@ + text::int_text(columns as int),
        message_text(
            ErrorView {
                op: OpType::Rekey,
                kind: ErrorKind::RaggedRows { entries, columns },
                names,
            },
        ) == "rekey"@ + ": "@ + "entry count "@ + text::int_text(entries as int)
            + " is not a multiple of _retention col_count="@ + text::int_text(columns as int),
        message_text(
            ErrorView {
                op: OpType::InviteUser,
                kind: ErrorKind::NotProvisional { status },
                names,
            },
        ) == "invite_user"@ + ": "@
            + "inserted _users.status must be provisional (0 or 3), got "@ + text::int_text(
            status as int,
        ),
{
}

} // verus!
