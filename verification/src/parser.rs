//! The schema parser: one message-description text, line by line, into
//! a message descriptor — ordered fields, named constants and free-form
//! topic annotations.
//!
//! Each line is classified independently:
//! - an empty line is skipped;
//! - a line without `#` is a declaration;
//! - a line with exactly one `#` is a declaration on the left of the
//!   `#` with the text after it as its doc comment;
//! - a line with more than one `#` is ignored.
//!
//! A declaration with `=` is a constant: the tokens before the first
//! `=` give its type and name, the text between the first and a second
//! `=` (or the end) is its literal value, kept as an opaque string.  A
//! declaration without `=` whose first token parses as a type is a
//! field.  One that does not parse as a declaration but contains the
//! keyword `TOPICS` is a topics line: the whitespace-separated tokens
//! before the keyword are recorded.  Fewer than two tokens is a
//! non-fatal skip; any other failed type token is fatal, the schema is
//! invalid.

use vstd::prelude::*;

use crate::hash::{hash16, hash16_of};
use crate::text::{
    find_byte, find_sub, spec_find_byte, spec_find_sub, spec_tokens, spec_trim, tokens, trim,
};
use crate::types::{UorbFieldType, spec_parse_type};

verus! {

/// A fatal schema error: a declaration whose type token is not a valid
/// type.
#[derive(Debug, PartialEq, Eq, Structural, Clone, Copy)]
pub enum SchemaError {
    UnknownType,
}

/// One declared field of a message.  Ordering within a message defines
/// the wire order.
#[derive(Debug)]
pub struct UorbMsgField {
    pub uorbtype: UorbFieldType,
    pub name: Vec<u8>,
    pub description: Option<Vec<u8>>,
}

/// The mathematical value of a field declaration.
pub struct FieldModel {
    pub ty: UorbFieldType,
    pub name: Seq<u8>,
    pub doc: Option<Seq<u8>>,
}

impl View for UorbMsgField {
    type V = FieldModel;

    open spec fn view(&self) -> FieldModel {
        FieldModel {
            ty: self.uorbtype,
            name: self.name@,
            doc: match self.description {
                Some(d) => Some(d@),
                None => None,
            },
        }
    }
}

/// One named constant of a message: schema metadata baked into the
/// generated type, occupying no wire space.  The literal value is kept
/// as an opaque string, not checked against the type.
#[derive(Debug)]
pub struct UorbMsgConst {
    pub uorbtype: UorbFieldType,
    pub name: Vec<u8>,
    pub const_val: Vec<u8>,
    pub description: Option<Vec<u8>>,
}

/// The mathematical value of a constant declaration.
pub struct ConstModel {
    pub ty: UorbFieldType,
    pub name: Seq<u8>,
    pub value: Seq<u8>,
    pub doc: Option<Seq<u8>>,
}

impl View for UorbMsgConst {
    type V = ConstModel;

    open spec fn view(&self) -> ConstModel {
        ConstModel {
            ty: self.uorbtype,
            name: self.name@,
            value: self.const_val@,
            doc: match self.description {
                Some(d) => Some(d@),
                None => None,
            },
        }
    }
}

/// The view of an optional byte vector.
pub open spec fn opt_bytes_view(o: Option<Vec<u8>>) -> Option<Seq<u8>> {
    match o {
        Some(v) => Some(v@),
        None => None,
    }
}

/// The views of a vector of byte vectors.
pub open spec fn bytes_views(v: Seq<Vec<u8>>) -> Seq<Seq<u8>> {
    Seq::new(v.len(), |i: int| v[i]@)
}

/// A field declaration parsed from the text left of any comment: the
/// first two whitespace-separated tokens are its type and name.  Fewer
/// than two tokens is a non-fatal skip (`Ok(None)`); a bad type token
/// is fatal.
pub open spec fn spec_field_of_line(desc: Seq<u8>, doc: Option<Seq<u8>>) -> Result<
    Option<FieldModel>,
    SchemaError,
> {
    let toks = spec_tokens(desc);
    if toks.len() < 2 {
        Ok(None)
    } else {
        match spec_parse_type(toks[0]) {
            Some(t) => Ok(Some(FieldModel { ty: t, name: toks[1], doc })),
            None => Err(SchemaError::UnknownType),
        }
    }
}

/// A constant declaration parsed from the two sides of its `=`: type
/// and name from the left side, the trimmed literal text as its value.
pub open spec fn spec_const_of_line(desc: Seq<u8>, value: Seq<u8>, doc: Option<Seq<u8>>) -> Result<
    Option<ConstModel>,
    SchemaError,
> {
    let toks = spec_tokens(desc);
    if toks.len() < 2 {
        Ok(None)
    } else {
        match spec_parse_type(toks[0]) {
            Some(t) => Ok(
                Some(ConstModel { ty: t, name: toks[1], value: spec_trim(value), doc }),
            ),
            None => Err(SchemaError::UnknownType),
        }
    }
}

impl UorbMsgField {
    /// Parse a field declaration; `None` for a line of fewer than two
    /// tokens, an error for a bad type token.
    pub fn from_line(desc: &[u8], comment: Option<Vec<u8>>) -> (r: Result<
        Option<UorbMsgField>,
        SchemaError,
    >)
        ensures
            match r {
                Ok(Some(f)) => spec_field_of_line(desc@, opt_bytes_view(comment)) == Ok::<
                    Option<FieldModel>,
                    SchemaError,
                >(Some(f@)),
                Ok(None) => spec_field_of_line(desc@, opt_bytes_view(comment)) == Ok::<
                    Option<FieldModel>,
                    SchemaError,
                >(None),
                Err(e) => spec_field_of_line(desc@, opt_bytes_view(comment)) == Err::<
                    Option<FieldModel>,
                    SchemaError,
                >(e),
            },
    {
        let mut toks = tokens(desc);
        proof {
            lemma_toks_views(&toks, desc@);
        }
        if toks.len() < 2 {
            return Ok(None);
        }
        match UorbFieldType::parse_type(toks[0].as_slice()) {
            Some(t) => {
                let name = toks.remove(1);
                Ok(Some(UorbMsgField { uorbtype: t, name, description: comment }))
            },
            None => Err(SchemaError::UnknownType),
        }
    }
}

impl UorbMsgConst {
    /// Parse a constant declaration from the text left of its `=` and
    /// the literal text right of it; `None` for fewer than two tokens,
    /// an error for a bad type token.
    pub fn from_line(desc: &[u8], value: &[u8], comment: Option<Vec<u8>>) -> (r: Result<
        Option<UorbMsgConst>,
        SchemaError,
    >)
        ensures
            match r {
                Ok(Some(c)) => spec_const_of_line(desc@, value@, opt_bytes_view(comment)) == Ok::<
                    Option<ConstModel>,
                    SchemaError,
                >(Some(c@)),
                Ok(None) => spec_const_of_line(desc@, value@, opt_bytes_view(comment)) == Ok::<
                    Option<ConstModel>,
                    SchemaError,
                >(None),
                Err(e) => spec_const_of_line(desc@, value@, opt_bytes_view(comment)) == Err::<
                    Option<ConstModel>,
                    SchemaError,
                >(e),
            },
    {
        let mut toks = tokens(desc);
        proof {
            lemma_toks_views(&toks, desc@);
        }
        if toks.len() < 2 {
            return Ok(None);
        }
        match UorbFieldType::parse_type(toks[0].as_slice()) {
            Some(t) => {
                let name = toks.remove(1);
                let val = trim(value);
                let val = vstd::slice::slice_to_vec(val);
                Ok(Some(UorbMsgConst { uorbtype: t, name, const_val: val, description: comment }))
            },
            None => Err(SchemaError::UnknownType),
        }
    }
}

/// The token vector's views are the tokens of the line.
proof fn lemma_toks_views(toks: &Vec<Vec<u8>>, s: Seq<u8>)
    requires
        toks.deep_view() == spec_tokens(s),
    ensures
        toks@.len() == spec_tokens(s).len(),
        forall|i: int| 0 <= i < toks@.len() ==> #[trigger] toks@[i]@ == spec_tokens(s)[i],
{
    assert forall|i: int| 0 <= i < toks@.len() implies #[trigger] toks@[i]@ == spec_tokens(s)[i] by {
        assert(toks.deep_view()[i] == toks@[i].deep_view());
        assert(toks@[i].deep_view() =~= toks@[i]@);
    }
}


/// The topics keyword, `TOPICS`.
pub open spec fn topics_kw() -> Seq<u8> {
    seq![84u8, 79u8, 80u8, 73u8, 67u8, 83u8]
}

fn topics_lit() -> (r: Vec<u8>)
    ensures
        r@ == topics_kw(),
{
    let mut v: Vec<u8> = Vec::new();
    v.push(84u8);
    v.push(79u8);
    v.push(80u8);
    v.push(73u8);
    v.push(67u8);
    v.push(83u8);
    proof {
        assert(v@ =~= topics_kw());
    }
    v
}

/// What one line contributes to a message.
pub enum LineAction {
    Skip,
    Field(FieldModel),
    Const(ConstModel),
    Topics(Seq<Seq<u8>>),
    Invalid,
}

/// Classify a declaration (the text left of any comment).  With an
/// `=` it is a constant: type and name before the first `=`, the
/// literal between the first and a second `=` or the end.  Without
/// one it is a field if its first token parses as a type; otherwise a
/// topics line if it contains the keyword, recording the tokens before
/// the keyword; otherwise a skip (fewer than two tokens) or a fatal
/// error (a bad type token).
pub open spec fn spec_classify_decl(s: Seq<u8>, doc: Option<Seq<u8>>) -> LineAction {
    let eqpos = spec_find_byte(s, 61u8);
    if eqpos < s.len() {
        let left = s.take(eqpos);
        let rest = s.skip(eqpos + 1);
        let value = rest.take(spec_find_byte(rest, 61u8));
        match spec_const_of_line(left, value, doc) {
            Ok(Some(c)) => LineAction::Const(c),
            Ok(None) => LineAction::Skip,
            Err(_) => LineAction::Invalid,
        }
    } else {
        match spec_field_of_line(s, doc) {
            Ok(Some(f)) => LineAction::Field(f),
            r => match spec_find_sub(s, topics_kw()) {
                Some(k) => LineAction::Topics(spec_tokens(s.take(k))),
                None => if r is Err {
                    LineAction::Invalid
                } else {
                    LineAction::Skip
                },
            },
        }
    }
}

/// Classify one raw line: trim it; skip it when empty; without `#` it
/// is a declaration; with exactly one `#` the left side is the
/// declaration and the right side its doc comment; with more it is
/// ignored.
pub open spec fn spec_classify_line(line: Seq<u8>) -> LineAction {
    let t = spec_trim(line);
    if t.len() == 0 {
        LineAction::Skip
    } else {
        let hp = spec_find_byte(t, 35u8);
        if hp == t.len() {
            spec_classify_decl(t, None)
        } else {
            let left = t.take(hp);
            let right = t.skip(hp + 1);
            if spec_find_byte(right, 35u8) < right.len() {
                LineAction::Skip
            } else {
                spec_classify_decl(left, Some(right))
            }
        }
    }
}

/// What a whole description text denotes: fields, constants and topics
/// in line order, or the first fatal error.
pub struct ParsedLines {
    pub fields: Seq<FieldModel>,
    pub consts: Seq<ConstModel>,
    pub topics: Seq<Seq<u8>>,
}

pub open spec fn spec_fold_lines(lines: Seq<Seq<u8>>) -> Result<ParsedLines, SchemaError>
    decreases lines.len(),
{
    if lines.len() == 0 {
        Ok(ParsedLines { fields: Seq::empty(), consts: Seq::empty(), topics: Seq::empty() })
    } else {
        match spec_fold_lines(lines.drop_last()) {
            Err(e) => Err(e),
            Ok(p) => match spec_classify_line(lines.last()) {
                LineAction::Skip => Ok(p),
                LineAction::Field(f) => Ok(ParsedLines { fields: p.fields.push(f), ..p }),
                LineAction::Const(c) => Ok(ParsedLines { consts: p.consts.push(c), ..p }),
                LineAction::Topics(ts) => Ok(ParsedLines { topics: p.topics + ts, ..p }),
                LineAction::Invalid => Err(SchemaError::UnknownType),
            },
        }
    }
}

/// Once a prefix of the lines is in error, the whole text is, with the
/// same error.
proof fn lemma_fold_err_persists(lines: Seq<Seq<u8>>, j: int)
    requires
        0 <= j <= lines.len(),
        spec_fold_lines(lines.take(j)) is Err,
    ensures
        spec_fold_lines(lines) == spec_fold_lines(lines.take(j)),
    decreases lines.len() - j,
{
    if j < lines.len() {
        assert(lines.take(j + 1).drop_last() =~= lines.take(j));
        lemma_fold_err_persists(lines, j + 1);
    } else {
        assert(lines.take(j) =~= lines);
    }
}

/// One message descriptor: its raw schema name, its camel-cased
/// display name, the identity hash of the raw name, and its fields,
/// constants and topics in declaration order.
#[derive(Debug)]
pub struct UorbMsg {
    pub name: Vec<u8>,
    pub raw_name: Vec<u8>,
    pub name_hash_val: u16,
    pub fields: Vec<UorbMsgField>,
    pub consts: Vec<UorbMsgConst>,
    pub topics: Vec<Vec<u8>>,
}

/// The mathematical value of a message descriptor.
#[verifier::ext_equal]
pub struct MsgModel {
    pub name: Seq<u8>,
    pub raw_name: Seq<u8>,
    pub hash: u16,
    pub fields: Seq<FieldModel>,
    pub consts: Seq<ConstModel>,
    pub topics: Seq<Seq<u8>>,
}

/// `m` is the descriptor that parsing `lines` under `raw_name` and
/// display name `name` denotes.
pub open spec fn spec_msg_of(raw_name: Seq<u8>, name: Seq<u8>, lines: Seq<Seq<u8>>, m: MsgModel) -> bool {
    &&& match spec_fold_lines(lines) {
        Ok(p) => m.fields == p.fields && m.consts == p.consts && m.topics == p.topics,
        Err(_) => false,
    }
    &&& m.raw_name == raw_name
    &&& m.name == name
    &&& m.hash == hash16_of(raw_name)
}

/// Hash stability, and determinism of the whole schema compiler: two
/// descriptors parsed from the same raw name, display name and text
/// are equal — in particular their identity hashes and generated
/// identifiers are identical on every run.
pub proof fn lemma_parse_deterministic(
    raw_name: Seq<u8>,
    name: Seq<u8>,
    lines: Seq<Seq<u8>>,
    m1: MsgModel,
    m2: MsgModel,
)
    requires
        spec_msg_of(raw_name, name, lines, m1),
        spec_msg_of(raw_name, name, lines, m2),
    ensures
        m1 == m2,
{
    assert(m1 =~= m2);
}

impl View for UorbMsg {
    type V = MsgModel;

    open spec fn view(&self) -> MsgModel {
        MsgModel {
            name: self.name@,
            raw_name: self.raw_name@,
            hash: self.name_hash_val,
            fields: Seq::new(self.fields@.len(), |i: int| self.fields@[i]@),
            consts: Seq::new(self.consts@.len(), |i: int| self.consts@[i]@),
            topics: bytes_views(self.topics@),
        }
    }
}

impl UorbMsg {
    /// Record the tokens of a topics line (the text before the
    /// keyword).
    fn push_topics(pre: &[u8], msg: &mut UorbMsg)
        ensures
            final(msg)@ == (MsgModel { topics: old(msg)@.topics + spec_tokens(pre@), ..old(msg)@ }),
    {
        let mut ts = tokens(pre);
        proof {
            lemma_toks_views(&ts, pre@);
        }
        let ghost old_topics = msg.topics@;
        let ghost ts_pre = ts@;
        msg.topics.append(&mut ts);
        proof {
            assert forall|i: int| 0 <= i < msg.topics@.len() implies #[trigger] msg.topics@[i]@
                == (old(msg)@.topics + spec_tokens(pre@))[i] by {
                if i < old_topics.len() {
                    assert(msg.topics@[i] == old_topics[i]);
                } else {
                    assert(msg.topics@[i] == ts_pre[i - old_topics.len()]);
                }
            }
            assert(msg@.topics =~= old(msg)@.topics + spec_tokens(pre@));
            assert(msg@.fields =~= old(msg)@.fields);
            assert(msg@.consts =~= old(msg)@.consts);
        }
    }

    /// Process one declaration (the text left of any comment): push a
    /// field, a constant or topic tokens onto the message, skip a
    /// malformed-short line, and fail on a bad type token.
    pub fn process_field_desc(field_desc: &[u8], comment: Option<Vec<u8>>, msg: &mut UorbMsg) -> (r:
        Result<(), SchemaError>)
        ensures
            match spec_classify_decl(field_desc@, opt_bytes_view(comment)) {
                LineAction::Field(f) => r is Ok && final(msg)@ == (MsgModel {
                    fields: old(msg)@.fields.push(f),
                    ..old(msg)@
                }),
                LineAction::Const(c) => r is Ok && final(msg)@ == (MsgModel {
                    consts: old(msg)@.consts.push(c),
                    ..old(msg)@
                }),
                LineAction::Topics(ts) => r is Ok && final(msg)@ == (MsgModel {
                    topics: old(msg)@.topics + ts,
                    ..old(msg)@
                }),
                LineAction::Skip => r is Ok && final(msg)@ == old(msg)@,
                LineAction::Invalid => r == Err::<(), SchemaError>(SchemaError::UnknownType)
                    && final(msg)@ == old(msg)@,
            },
    {
        let n = field_desc.len();
        let eqpos = find_byte(field_desc, 61u8);
        proof {
            crate::text::lemma_find_byte_props(field_desc@, 61u8);
        }
        if eqpos < n {
            let left = vstd::slice::slice_subrange(field_desc, 0, eqpos);
            let rest = vstd::slice::slice_subrange(field_desc, eqpos + 1, n);
            let vend = find_byte(rest, 61u8);
            proof {
                crate::text::lemma_find_byte_props(rest@, 61u8);
            }
            let value = vstd::slice::slice_subrange(rest, 0, vend);
            proof {
                assert(left@ =~= field_desc@.take(eqpos as int));
                assert(rest@ =~= field_desc@.skip(eqpos + 1));
                assert(value@ =~= rest@.take(spec_find_byte(rest@, 61u8)));
            }
            match UorbMsgConst::from_line(left, value, comment) {
                Ok(Some(c)) => {
                    let ghost cv = c@;
                    msg.consts.push(c);
                    proof {
                        assert(msg@.consts =~= old(msg)@.consts.push(cv));
                        assert(msg@.fields =~= old(msg)@.fields);
                        assert(msg@.topics =~= old(msg)@.topics);
                    }
                    Ok(())
                },
                Ok(None) => Ok(()),
                Err(e) => Err(e),
            }
        } else {
            proof {
                assert(eqpos == field_desc@.len());
            }
            let r = UorbMsgField::from_line(field_desc, comment);
            match r {
                Ok(Some(f)) => {
                    let ghost fv = f@;
                    msg.fields.push(f);
                    proof {
                        assert(msg@.fields =~= old(msg)@.fields.push(fv));
                        assert(msg@.consts =~= old(msg)@.consts);
                        assert(msg@.topics =~= old(msg)@.topics);
                    }
                    Ok(())
                },
                Ok(None) => {
                    let kw = topics_lit();
                    match find_sub(field_desc, kw.as_slice()) {
                        Some(k) => {
                            proof {
                                lemma_find_sub_bound(field_desc@, kw@);
                            }
                            let pre = vstd::slice::slice_subrange(field_desc, 0, k);
                            proof {
                                assert(pre@ =~= field_desc@.take(k as int));
                            }
                            Self::push_topics(pre, msg);
                            Ok(())
                        },
                        None => Ok(()),
                    }
                },
                Err(e) => {
                    let kw = topics_lit();
                    match find_sub(field_desc, kw.as_slice()) {
                        Some(k) => {
                            proof {
                                lemma_find_sub_bound(field_desc@, kw@);
                            }
                            let pre = vstd::slice::slice_subrange(field_desc, 0, k);
                            proof {
                                assert(pre@ =~= field_desc@.take(k as int));
                            }
                            Self::push_topics(pre, msg);
                            Ok(())
                        },
                        None => Err(e),
                    }
                },
            }
        }
    }

    /// Process one raw line of a description text.
    fn process_line(line: &[u8], msg: &mut UorbMsg) -> (r: Result<(), SchemaError>)
        ensures
            match spec_classify_line(line@) {
                LineAction::Field(f) => r is Ok && final(msg)@ == (MsgModel {
                    fields: old(msg)@.fields.push(f),
                    ..old(msg)@
                }),
                LineAction::Const(c) => r is Ok && final(msg)@ == (MsgModel {
                    consts: old(msg)@.consts.push(c),
                    ..old(msg)@
                }),
                LineAction::Topics(ts) => r is Ok && final(msg)@ == (MsgModel {
                    topics: old(msg)@.topics + ts,
                    ..old(msg)@
                }),
                LineAction::Skip => r is Ok && final(msg)@ == old(msg)@,
                LineAction::Invalid => r == Err::<(), SchemaError>(SchemaError::UnknownType)
                    && final(msg)@ == old(msg)@,
            },
    {
        let t = trim(line);
        let n = t.len();
        if n == 0 {
            return Ok(());
        }
        let hp = find_byte(t, 35u8);
        proof {
            crate::text::lemma_find_byte_props(t@, 35u8);
        }
        if hp == n {
            Self::process_field_desc(t, None, msg)
        } else {
            let left = vstd::slice::slice_subrange(t, 0, hp);
            let right = vstd::slice::slice_subrange(t, hp + 1, n);
            proof {
                assert(left@ =~= t@.take(hp as int));
                assert(right@ =~= t@.skip(hp + 1));
            }
            let hp2 = find_byte(right, 35u8);
            if hp2 < right.len() {
                Ok(())
            } else {
                let comment = vstd::slice::slice_to_vec(right);
                Self::process_field_desc(left, Some(comment), msg)
            }
        }
    }

    /// Parse one message description.  `raw_name` is the schema file
    /// stem, used for the identity hash; `name` is the caller-derived
    /// display name; `lines` is the description text, one line per
    /// entry.
    pub fn from_lines(raw_name: Vec<u8>, name: Vec<u8>, lines: &Vec<Vec<u8>>) -> (r: Result<
        UorbMsg,
        SchemaError,
    >)
        ensures
            match r {
                Ok(msg) => spec_msg_of(raw_name@, name@, bytes_views(lines@), msg@),
                Err(e) => spec_fold_lines(bytes_views(lines@)) == Err::<ParsedLines, SchemaError>(
                    e,
                ),
            },
    {
        let hash_val = hash16(raw_name.as_slice());
        let mut msg = UorbMsg {
            name,
            raw_name,
            name_hash_val: hash_val,
            fields: Vec::new(),
            consts: Vec::new(),
            topics: Vec::new(),
        };
        let ghost lseq = bytes_views(lines@);
        let ghost rn = msg.raw_name@;
        let ghost dn = msg.name@;
        let n = lines.len();
        let mut i: usize = 0;
        proof {
            assert(lseq.take(0) =~= Seq::<Seq<u8>>::empty());
            assert(msg@.fields =~= Seq::<FieldModel>::empty());
            assert(msg@.consts =~= Seq::<ConstModel>::empty());
            assert(msg@.topics =~= Seq::<Seq<u8>>::empty());
        }
        while i < n
            invariant
                i <= n,
                n == lines@.len(),
                lseq == bytes_views(lines@),
                msg@.raw_name == rn,
                msg@.name == dn,
                msg@.hash == hash16_of(rn),
                match spec_fold_lines(lseq.take(i as int)) {
                    Ok(p) => msg@.fields == p.fields && msg@.consts == p.consts && msg@.topics
                        == p.topics,
                    Err(_) => false,
                },
            decreases n - i,
        {
            let line = lines[i].as_slice();
            proof {
                assert(lseq.take(i + 1).drop_last() =~= lseq.take(i as int));
                assert(lseq.take(i + 1).last() == lseq[i as int]);
                assert(line@ == lseq[i as int]);
            }
            match Self::process_line(line, &mut msg) {
                Ok(()) => {},
                Err(e) => {
                    proof {
                        assert(spec_fold_lines(lseq.take(i + 1)) == Err::<
                            ParsedLines,
                            SchemaError,
                        >(e));
                        lemma_fold_err_persists(lseq, i + 1);
                    }
                    return Err(e);
                },
            }
            i = i + 1;
        }
        proof {
            assert(lseq.take(n as int) =~= lseq);
        }
        Ok(msg)
    }
}

/// A found occurrence lies within the string.
proof fn lemma_find_sub_bound(s: Seq<u8>, pat: Seq<u8>)
    ensures
        match spec_find_sub(s, pat) {
            Some(k) => 0 <= k && k + pat.len() <= s.len(),
            None => true,
        },
    decreases s.len(),
{
    if s.len() < pat.len() {
    } else if s.take(pat.len() as int) == pat {
    } else if s.len() == 0 {
    } else {
        lemma_find_sub_bound(s.skip(1), pat);
    }
}

} // verus!
