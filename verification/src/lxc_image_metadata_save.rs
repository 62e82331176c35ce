//! The index writer: rendering the retained image set into the persisted
//! index format, newest name first, together with the paths the index is
//! written to and the ownership decision.

use vstd::prelude::*;
use vstd::string::StrSliceExecFns;
use vstd::string::StringExecFns;

use crate::lxc_container::lines_of;
use crate::lxc_container::strip_cr;
use crate::lxc_image_entries_cleanup::ImageEntry;
use crate::lxc_image_metadata::fields_of;
use crate::lxc_image_metadata::normalize_path;
use crate::lxc_image_metadata::parse_line;
use crate::lxc_image_metadata::strip_leading_slashes;
use crate::lxc_image_metadata::strip_trailing_slashes;
use crate::lxc_image_metadata::LXCImageMetadata;
use crate::text::is_prefix_of;
use crate::text::is_space;
use crate::text::lemma_lex_le_total;
use crate::text::lemma_lex_le_trans;
use crate::text::lemma_split_concat;
use crate::text::lemma_split_nonempty;
use crate::text::lemma_split_no_sep;
use crate::text::lemma_trim_clean;
use crate::text::lex_le;
use crate::text::split_char;
use crate::text::str_lex_le;
use crate::text::str_starts_with;
use crate::text::trim_spec;
use crate::Error;

verus! {

broadcast use vstd::seq_lib::group_to_multiset_ensures;

/// Newest instance name first: the order the persisted index lists images
/// in.
pub open spec fn sorted_by_name_desc(s: Seq<ImageEntry>) -> bool {
    forall|i: int, j: int| 0 <= i <= j < s.len() ==> lex_le(s[j].0.name@, s[i].0.name@)
}

fn clone_entry(e: &ImageEntry) -> (r: ImageEntry)
    ensures
        r == *e,
{
    (e.0.clone(), e.1)
}

/// Reorders the entries so that names descend lexicographically; the
/// entries themselves are kept exactly.
pub fn sort_entries_by_name_desc(v: Vec<ImageEntry>) -> (r: Vec<ImageEntry>)
    ensures
        r@.to_multiset() == v@.to_multiset(),
        sorted_by_name_desc(r@),
        r@.len() == v@.len(),
{
    let ghost orig = v@;
    let mut src = v;
    let mut out: Vec<ImageEntry> = Vec::new();
    while src.len() > 0
        invariant
            out@.to_multiset().add(src@.to_multiset()) == orig.to_multiset(),
            out@.len() + src@.len() == orig.len(),
            sorted_by_name_desc(out@),
        decreases src.len(),
    {
        let ghost src0 = src@;
        let e = src.pop().unwrap();
        proof {
            assert(src0 =~= src@.push(e));
            assert(src0.to_multiset() == src@.to_multiset().insert(e));
        }
        let mut p: usize = 0;
        while p < out.len() && str_lex_le(e.0.name.as_str(), out[p].0.name.as_str())
            invariant
                0 <= p <= out@.len(),
                forall|i: int| 0 <= i < p ==> lex_le(e.0.name@, out@[i].0.name@),
                sorted_by_name_desc(out@),
            decreases out.len() - p,
        {
            p = p + 1;
        }
        let ghost out0 = out@;
        out.insert(p, e);
        proof {
            assert(out@ == out0.insert(p as int, e));
            if p < out0.len() {
                lemma_lex_le_total(e.0.name@, out0[p as int].0.name@);
            }
            assert forall|i: int, j: int| 0 <= i <= j < out@.len() implies lex_le(
                out@[j].0.name@,
                out@[i].0.name@,
            ) by {
                if i == j {
                    lemma_lex_le_total(out@[i].0.name@, out@[i].0.name@);
                }
                if p < out0.len() && i <= p && j > p {
                    lemma_lex_le_trans(out@[j].0.name@, out0[p as int].0.name@, out@[i].0.name@);
                }
            }
            assert(out@.to_multiset().add(src@.to_multiset()) =~= orig.to_multiset());
        }
    }
    proof {
        assert(out@.to_multiset().add(src@.to_multiset()) =~= out@.to_multiset());
    }
    out
}

/// One rendered index line: the six fields in catalog order, the path
/// rendered relative to the root and prefixed with a slash.
pub open spec fn index_line_of(
    dist: Seq<char>,
    release: Seq<char>,
    arch: Seq<char>,
    type_: Seq<char>,
    name: Seq<char>,
    rel: Seq<char>,
) -> Seq<char> {
    dist + seq![';'] + release + seq![';'] + arch + seq![';'] + type_ + seq![';'] + name + seq![
        ';',
        '/',
    ] + strip_trailing_slashes(rel)
}

fn rstrip_slashes(s: &str) -> (r: String)
    ensures
        r@ == strip_trailing_slashes(s@),
{
    let n = s.unicode_len();
    let mut hi: usize = n;
    while hi > 0 && s.get_char(hi - 1) == '/'
        invariant
            n == s@.len(),
            0 <= hi <= n,
            forall|j: int| hi <= j < n ==> s@[j] == '/',
        decreases hi,
    {
        hi = hi - 1;
    }
    let part = s.substring_char(0, hi);
    let r = part.to_owned();
    proof {
        let sl = |c: char| c == '/';
        crate::text::lemma_drop_while_end_take(s@, sl, hi as int);
        if hi > 0 {
            assert(!sl(s@.take(hi as int).last())) by {
                assert(s@.take(hi as int).last() == s@[hi - 1]);
            }
        }
        assert(strip_trailing_slashes(s@) == s@.take(hi as int));
        assert(s@.take(hi as int) =~= s@.subrange(0, hi as int));
    }
    r
}

fn lstrip_slashes(s: &str) -> (r: String)
    ensures
        r@ == strip_leading_slashes(s@),
{
    let n = s.unicode_len();
    let mut lo: usize = 0;
    while lo < n && s.get_char(lo) == '/'
        invariant
            n == s@.len(),
            0 <= lo <= n,
            forall|j: int| 0 <= j < lo ==> s@[j] == '/',
        decreases n - lo,
    {
        lo = lo + 1;
    }
    let part = s.substring_char(lo, n);
    let r = part.to_owned();
    proof {
        let sl = |c: char| c == '/';
        crate::text::lemma_drop_while_skip(s@, sl, lo as int);
        if lo < n {
            assert(!sl(s@.skip(lo as int)[0]));
        }
        assert(strip_leading_slashes(s@) == s@.skip(lo as int));
        assert(s@.skip(lo as int) =~= s@.subrange(lo as int, n as int));
    }
    r
}

/// Renders one line from the six fields, as `index_line_of` describes.
pub fn index_line(m: &LXCImageMetadata, rel: &str) -> (r: String)
    ensures
        r@ == index_line_of(m.dist@, m.release@, m.arch@, m.type_@, m.name@, rel@),
{
    let mut r = String::new();
    r.append(m.dist.as_str());
    r.append(";");
    r.append(m.release.as_str());
    r.append(";");
    r.append(m.arch.as_str());
    r.append(";");
    r.append(m.type_.as_str());
    r.append(";");
    r.append(m.name.as_str());
    r.append(";/");
    let stripped = rstrip_slashes(rel);
    r.append(stripped.as_str());
    proof {
        reveal_strlit(";");
        reveal_strlit(";/");
        assert(";"@.len() == 1);
        assert(";/"@.len() == 2);
        assert(";"@ =~= seq![';']);
        assert(";/"@ =~= seq![';', '/']);
        assert(r@ =~= index_line_of(m.dist@, m.release@, m.arch@, m.type_@, m.name@, rel@));
    }
    r
}

/// The path of an entry relative to the root, leading slashes dropped;
/// meaningful only when the path lies under the root.
pub open spec fn rel_view(root: Seq<char>, p: Seq<char>) -> Seq<char> {
    strip_leading_slashes(p.skip(root.len() as int))
}

/// Whether every entry's path textually starts with the root: only then
/// can the index render every path relative to it.
pub open spec fn all_under_root(root: Seq<char>, es: Seq<ImageEntry>) -> bool {
    forall|i: int| 0 <= i < es.len() ==> is_prefix_of(root, (#[trigger] es[i]).0.path@)
}

/// The index body rendered from entries in the given order: one line per
/// entry, each terminated by a newline.
pub open spec fn rendered_lines(root: Seq<char>, es: Seq<ImageEntry>) -> Seq<char>
    decreases es.len(),
{
    if es.len() == 0 {
        Seq::empty()
    } else {
        index_line_of(
            es[0].0.dist@,
            es[0].0.release@,
            es[0].0.arch@,
            es[0].0.type_@,
            es[0].0.name@,
            rel_view(root, es[0].0.path@),
        ) + seq!['\n'] + rendered_lines(root, es.drop_first())
    }
}

proof fn lemma_rendered_lines_take(root: Seq<char>, es: Seq<ImageEntry>, i: int)
    requires
        0 <= i < es.len(),
    ensures
        rendered_lines(root, es.take(i + 1)) == rendered_lines(root, es.take(i)) + index_line_of(
            es[i].0.dist@,
            es[i].0.release@,
            es[i].0.arch@,
            es[i].0.type_@,
            es[i].0.name@,
            rel_view(root, es[i].0.path@),
        ) + seq!['\n'],
    decreases i,
{
    if i == 0 {
        assert(es.take(0) =~= Seq::<ImageEntry>::empty());
        assert(es.take(1).drop_first() =~= Seq::<ImageEntry>::empty());
        assert(es.take(1)[0] == es[0]);
        assert(rendered_lines(root, Seq::<ImageEntry>::empty()) =~= Seq::<char>::empty());
        assert(rendered_lines(root, es.take(1)) =~= rendered_lines(root, es.take(0))
            + index_line_of(
            es[0].0.dist@,
            es[0].0.release@,
            es[0].0.arch@,
            es[0].0.type_@,
            es[0].0.name@,
            rel_view(root, es[0].0.path@),
        ) + seq!['\n']);
    } else {
        lemma_rendered_lines_take(root, es.drop_first(), i - 1);
        assert(es.take(i + 1).drop_first() =~= es.drop_first().take(i));
        assert(es.take(i).drop_first() =~= es.drop_first().take(i - 1));
        assert(es.take(i + 1)[0] == es[0]);
        assert(es.take(i)[0] == es[0]);
        assert(es.drop_first()[i - 1] == es[i]);
        assert(rendered_lines(root, es.take(i + 1)) =~= rendered_lines(root, es.take(i))
            + index_line_of(
            es[i].0.dist@,
            es[i].0.release@,
            es[i].0.arch@,
            es[i].0.type_@,
            es[i].0.name@,
            rel_view(root, es[i].0.path@),
        ) + seq!['\n']);
    }
}

/// Renders the index body from the entries in their given order: one line
/// per entry, path relative to the root. An entry whose path does not
/// start with the root fails the whole step.
pub fn render_index(root_dir: &str, image_entries: &Vec<ImageEntry>) -> (r: Result<String, Error>)
    ensures
        match r {
            Ok(s) => all_under_root(root_dir@, image_entries@) && s@ == rendered_lines(
                root_dir@,
                image_entries@,
            ),
            Err(e) => e == Error::Filesystem && !all_under_root(root_dir@, image_entries@),
        },
{
    let n = image_entries.len();
    let mut out = String::new();
    let mut i: usize = 0;
    proof {
        assert(image_entries@.take(0) =~= Seq::<ImageEntry>::empty());
        assert(rendered_lines(root_dir@, image_entries@.take(0)) =~= Seq::<char>::empty());
    }
    while i < n
        invariant
            n == image_entries@.len(),
            0 <= i <= n,
            forall|j: int|
                0 <= j < i ==> is_prefix_of(root_dir@, (#[trigger] image_entries@[j]).0.path@),
            out@ == rendered_lines(root_dir@, image_entries@.take(i as int)),
        decreases n - i,
    {
        let e = &image_entries[i];
        if !str_starts_with(e.0.path.as_str(), root_dir) {
            return Err(Error::Filesystem);
        }
        let root_len = root_dir.unicode_len();
        let path_len = e.0.path.as_str().unicode_len();
        let tail = e.0.path.as_str().substring_char(root_len, path_len);
        let rel = lstrip_slashes(tail);
        proof {
            assert(tail@ =~= e.0.path@.skip(root_dir@.len() as int));
            assert(rel@ == rel_view(root_dir@, e.0.path@));
        }
        let line = index_line(&e.0, rel.as_str());
        out.append(line.as_str());
        out.append("\n");
        proof {
            reveal_strlit("\n");
            assert("\n"@.len() == 1);
            assert("\n"@ =~= seq!['\n']);
            lemma_rendered_lines_take(root_dir@, image_entries@, i as int);
            assert(out@ =~= rendered_lines(root_dir@, image_entries@.take(i + 1)));
        }
        i = i + 1;
    }
    proof {
        assert(image_entries@.take(n as int) =~= image_entries@);
    }
    Ok(out)
}

/// Sorts the retained entries newest name first and renders the index
/// body, as the index writer persists it.
pub fn save_index_content(root_dir: &str, image_entries: Vec<ImageEntry>) -> (r: Result<
    String,
    Error,
>)
    ensures
        match r {
            Ok(s) => all_under_root(root_dir@, image_entries@) && exists|perm: Seq<ImageEntry>|
                perm.to_multiset() == image_entries@.to_multiset() && sorted_by_name_desc(perm)
                    && s@ == #[trigger] rendered_lines(root_dir@, perm),
            Err(e) => e == Error::Filesystem && !all_under_root(root_dir@, image_entries@),
        },
{
    let ghost orig = image_entries@;
    let sorted = sort_entries_by_name_desc(image_entries);
    let r = render_index(root_dir, &sorted);
    match r {
        Ok(s) => {
            proof {
                assert(all_under_root(root_dir@, orig)) by {
                    assert forall|i: int| 0 <= i < orig.len() implies is_prefix_of(
                        root_dir@,
                        (#[trigger] orig[i]).0.path@,
                    ) by {
                        assert(orig.to_multiset().contains(orig[i]));
                        assert(sorted@.contains(orig[i]));
                        let j = choose|j: int| 0 <= j < sorted@.len() && sorted@[j] == orig[i];
                        assert(is_prefix_of(root_dir@, sorted@[j].0.path@));
                    }
                }
                assert(s@ == rendered_lines(root_dir@, sorted@));
            }
            Ok(s)
        },
        Err(e) => {
            proof {
                assert(!all_under_root(root_dir@, orig)) by {
                    let j = choose|j: int|
                        0 <= j < sorted@.len() && !is_prefix_of(
                            root_dir@,
                            (#[trigger] sorted@[j]).0.path@,
                        );
                    assert(sorted@.to_multiset().contains(sorted@[j]));
                    assert(orig.contains(sorted@[j]));
                    let i = choose|i: int| 0 <= i < orig.len() && orig[i] == sorted@[j];
                    assert(!is_prefix_of(root_dir@, orig[i].0.path@));
                }
            }
            Err(e)
        },
    }
}

/// A field is fit for the index line format: free of separators and line
/// breaks, with no whitespace at its edges.
pub open spec fn wf_field(s: Seq<char>) -> bool {
    &&& forall|i: int| 0 <= i < s.len() ==> s[i] != ';' && s[i] != '\n'
    &&& s.len() > 0 ==> !is_space(s[0]) && !is_space(s.last())
}

/// A parsed record's path as `normalize_path` produces it: relative,
/// exactly one trailing slash, and fit for the line format.
pub open spec fn wf_rel_path(p: Seq<char>) -> bool {
    &&& p.len() >= 2
    &&& p.last() == '/'
    &&& p[0] != '/'
    &&& p[p.len() - 2] != '/'
    &&& !is_space(p[0])
    &&& !is_space(p[p.len() - 2])
    &&& forall|i: int| 0 <= i < p.len() ==> p[i] != ';' && p[i] != '\n'
}

proof fn lemma_split_six(
    f0: Seq<char>,
    f1: Seq<char>,
    f2: Seq<char>,
    f3: Seq<char>,
    f4: Seq<char>,
    f5: Seq<char>,
)
    requires
        forall|i: int| 0 <= i < f0.len() ==> f0[i] != ';',
        forall|i: int| 0 <= i < f1.len() ==> f1[i] != ';',
        forall|i: int| 0 <= i < f2.len() ==> f2[i] != ';',
        forall|i: int| 0 <= i < f3.len() ==> f3[i] != ';',
        forall|i: int| 0 <= i < f4.len() ==> f4[i] != ';',
        forall|i: int| 0 <= i < f5.len() ==> f5[i] != ';',
    ensures
        split_char(
            f0 + seq![';'] + (f1 + seq![';'] + (f2 + seq![';'] + (f3 + seq![';'] + (f4 + seq![';']
                + f5)))),
            ';',
        ) == seq![f0, f1, f2, f3, f4, f5],
{
    let tail5 = f4 + seq![';'] + f5;
    let tail4 = f3 + seq![';'] + tail5;
    let tail3 = f2 + seq![';'] + tail4;
    let tail2 = f1 + seq![';'] + tail3;
    lemma_split_no_sep(f5, ';');
    lemma_split_concat(f4, f5, ';');
    assert(split_char(tail5, ';') =~~= seq![f4, f5]);
    lemma_split_concat(f3, tail5, ';');
    assert(split_char(tail4, ';') =~~= seq![f3, f4, f5]);
    lemma_split_concat(f2, tail4, ';');
    assert(split_char(tail3, ';') =~~= seq![f2, f3, f4, f5]);
    lemma_split_concat(f1, tail3, ';');
    assert(split_char(tail2, ';') =~~= seq![f1, f2, f3, f4, f5]);
    lemma_split_concat(f0, tail2, ';');
    assert(split_char(f0 + seq![';'] + tail2, ';') =~~= seq![f0, f1, f2, f3, f4, f5]);
}

/// Writing six well-formed fields as one index line and parsing the line
/// back yields the fields unchanged, for a path in parser-normal form.
#[verifier::rlimit(100)]
pub proof fn lemma_line_reparses(
    dist: Seq<char>,
    release: Seq<char>,
    arch: Seq<char>,
    type_: Seq<char>,
    name: Seq<char>,
    p: Seq<char>,
)
    requires
        wf_field(dist),
        wf_field(release),
        wf_field(arch),
        wf_field(type_),
        wf_field(name),
        wf_rel_path(p),
    ensures
        parse_line(index_line_of(dist, release, arch, type_, name, p)) == Some(
            seq![dist, release, arch, type_, name, p],
        ),
{
    let core = p.drop_last();
    let last_field = seq!['/'] + core;
    let line = index_line_of(dist, release, arch, type_, name, p);
    lemma_last_field_normalizes(p);
    assert(forall|i: int| 0 <= i < last_field.len() ==> last_field[i] != ';') by {
        assert(forall|i: int| 1 <= i < last_field.len() ==> last_field[i] == core[i - 1]);
    }
    lemma_split_six(dist, release, arch, type_, name, last_field);
    lemma_line_reassoc(dist, release, arch, type_, name, p);
    assert(split_char(line, ';') =~~= seq![dist, release, arch, type_, name, last_field]);
    lemma_trim_clean(dist);
    lemma_trim_clean(release);
    lemma_trim_clean(arch);
    lemma_trim_clean(type_);
    lemma_trim_clean(name);
    assert(parse_line(line) == Some(seq![dist, release, arch, type_, name, p]));
}

#[verifier::rlimit(100)]
proof fn lemma_line_reassoc(
    dist: Seq<char>,
    release: Seq<char>,
    arch: Seq<char>,
    type_: Seq<char>,
    name: Seq<char>,
    rel: Seq<char>,
)
    ensures
        index_line_of(dist, release, arch, type_, name, rel) == dist + seq![';'] + (release
            + seq![';'] + (arch + seq![';'] + (type_ + seq![';'] + (name + seq![';'] + (seq!['/']
            + strip_trailing_slashes(rel)))))),
{
    assert(index_line_of(dist, release, arch, type_, name, rel) =~= dist + seq![';'] + (release
        + seq![';'] + (arch + seq![';'] + (type_ + seq![';'] + (name + seq![';'] + (seq!['/']
        + strip_trailing_slashes(rel)))))));
}

proof fn lemma_last_field_normalizes(p: Seq<char>)
    requires
        wf_rel_path(p),
    ensures
        strip_trailing_slashes(p) == p.drop_last(),
        trim_spec(seq!['/'] + p.drop_last()) == seq!['/'] + p.drop_last(),
        normalize_path(seq!['/'] + p.drop_last()) == p,
{
    let core = p.drop_last();
    let last_field = seq!['/'] + core;
    assert(core.len() > 0);
    assert(core.last() == p[p.len() - 2]);
    assert(strip_trailing_slashes(core) == core) by {
        assert(core.last() != '/');
    }
    assert(strip_trailing_slashes(p) == strip_trailing_slashes(core)) by {
        assert(p.last() == '/');
        assert(p.drop_last() == core);
    }
    assert(trim_spec(last_field) == last_field) by {
        assert(last_field[0] == '/');
        assert(!is_space('/'));
        assert(last_field.last() == core.last());
        lemma_trim_clean(last_field);
    }
    assert(normalize_path(last_field) == p) by {
        assert(strip_leading_slashes(core) == core) by {
            assert(core[0] == p[0]);
            assert(core[0] != '/');
        }
        assert(strip_leading_slashes(last_field) == strip_leading_slashes(core)) by {
            assert(last_field[0] == '/');
            assert(last_field.drop_first() =~= core);
        }
        assert(core.push('/') =~= p);
    }
}

/// Writing a record through the index writer and parsing the written line
/// back yields the record unchanged: the round trip between `index_line_of`
/// and `parse_line`, for records shaped as the parser itself produces
/// them.
pub proof fn lemma_index_line_round_trip(m: LXCImageMetadata)
    requires
        wf_field(m.dist@),
        wf_field(m.release@),
        wf_field(m.arch@),
        wf_field(m.type_@),
        wf_field(m.name@),
        wf_rel_path(m.path@),
    ensures
        parse_line(index_line_of(m.dist@, m.release@, m.arch@, m.type_@, m.name@, m.path@))
            == Some(fields_of(m)),
{
    lemma_line_reparses(m.dist@, m.release@, m.arch@, m.type_@, m.name@, m.path@);
}

/// A record every one of whose fields fits the index line format, with
/// the path in parser-normal form.
pub open spec fn wf_record(m: LXCImageMetadata) -> bool {
    &&& wf_field(m.dist@)
    &&& wf_field(m.release@)
    &&& wf_field(m.arch@)
    &&& wf_field(m.type_@)
    &&& wf_field(m.name@)
    &&& wf_rel_path(m.path@)
}

/// The line one record renders to, for records in parser-normal form.
pub open spec fn record_line_of(m: LXCImageMetadata) -> Seq<char> {
    index_line_of(m.dist@, m.release@, m.arch@, m.type_@, m.name@, m.path@)
}

/// The whole index body for a record set: one line per record, each
/// terminated by a newline.
pub open spec fn index_body_of(ms: Seq<LXCImageMetadata>) -> Seq<char>
    decreases ms.len(),
{
    if ms.len() == 0 {
        Seq::empty()
    } else {
        record_line_of(ms[0]) + seq!['\n'] + index_body_of(ms.drop_first())
    }
}

spec fn no_char(s: Seq<char>, c: char) -> bool {
    forall|i: int| 0 <= i < s.len() ==> s[i] != c
}

proof fn lemma_line_shape_parts(
    dist: Seq<char>,
    release: Seq<char>,
    arch: Seq<char>,
    type_: Seq<char>,
    name: Seq<char>,
    rel: Seq<char>,
)
    requires
        no_char(dist, '\n'),
        no_char(release, '\n'),
        no_char(arch, '\n'),
        no_char(type_, '\n'),
        no_char(name, '\n'),
        strip_trailing_slashes(rel).len() > 0,
        no_char(strip_trailing_slashes(rel), '\n'),
        !is_space(strip_trailing_slashes(rel).last()),
    ensures
        index_line_of(dist, release, arch, type_, name, rel).len() > 0,
        no_char(index_line_of(dist, release, arch, type_, name, rel), '\n'),
        index_line_of(dist, release, arch, type_, name, rel).last() != '\r',
{
    let core = strip_trailing_slashes(rel);
    let line = index_line_of(dist, release, arch, type_, name, rel);
    assert forall|i: int| 0 <= i < line.len() implies line[i] != '\n' by {}
    assert(line.last() == core.last());
}

proof fn lemma_line_shape(m: LXCImageMetadata)
    requires
        wf_record(m),
    ensures
        record_line_of(m).len() > 0,
        no_char(record_line_of(m), '\n'),
        record_line_of(m).last() != '\r',
{
    let p = m.path@;
    let core = p.drop_last();
    assert(strip_trailing_slashes(core) == core) by {
        assert(core.last() == p[p.len() - 2]);
        assert(core.last() != '/');
    }
    assert(strip_trailing_slashes(p) == strip_trailing_slashes(core)) by {
        assert(p.last() == '/');
        assert(p.drop_last() == core);
    }
    assert(forall|j: int| 0 <= j < core.len() ==> core[j] == p[j]);
    lemma_line_shape_parts(m.dist@, m.release@, m.arch@, m.type_@, m.name@, p);
}

/// One line followed by a newline prepends itself to the lines of what
/// follows.
proof fn lemma_lines_of_cons(line: Seq<char>, rest: Seq<char>)
    requires
        line.len() > 0,
        no_char(line, '\n'),
        line.last() != '\r',
    ensures
        lines_of(line + seq!['\n'] + rest) == seq![line] + lines_of(rest),
{
    let body = line + seq!['\n'] + rest;
    lemma_split_concat(line, rest, '\n');
    let sp_rest = split_char(rest, '\n');
    lemma_split_nonempty(rest, '\n');
    let sp = split_char(body, '\n');
    assert(sp == seq![line] + sp_rest);
    assert(sp.last() == sp_rest.last());
    if sp_rest.last().len() == 0 {
        assert(sp.drop_last() =~~= seq![line] + sp_rest.drop_last());
    }
    assert(strip_cr(line) == line);
    assert(lines_of(body) =~~= seq![line] + lines_of(rest));
}

/// Writing a record set through the index writer and re-parsing the body
/// line by line yields the records back: the round trip of the whole
/// index, for records shaped as the parser itself produces them.
pub proof fn lemma_index_body_round_trip(ms: Seq<LXCImageMetadata>)
    requires
        forall|i: int| 0 <= i < ms.len() ==> wf_record(#[trigger] ms[i]),
    ensures
        lines_of(index_body_of(ms)).len() == ms.len(),
        forall|i: int|
            0 <= i < ms.len() ==> parse_line(lines_of(index_body_of(ms))[i]) == Some(
                fields_of(#[trigger] ms[i]),
            ),
    decreases ms.len(),
{
    if ms.len() == 0 {
        assert(split_char(Seq::<char>::empty(), '\n') =~~= seq![Seq::<char>::empty()]);
        assert(lines_of(index_body_of(ms)) =~~= Seq::<Seq<char>>::empty());
    } else {
        let m = ms[0];
        let line = record_line_of(m);
        let rest = ms.drop_first();
        assert(forall|i: int| 0 <= i < rest.len() ==> wf_record(#[trigger] rest[i])) by {
            assert(forall|i: int| 0 <= i < rest.len() ==> rest[i] == ms[i + 1]);
        }
        lemma_index_body_round_trip(rest);
        lemma_line_shape(m);
        lemma_lines_of_cons(line, index_body_of(rest));
        lemma_index_line_round_trip(m);
        let all = lines_of(index_body_of(ms));
        assert(all == seq![line] + lines_of(index_body_of(rest)));
        assert forall|i: int| 0 <= i < ms.len() implies parse_line(all[i]) == Some(
            fields_of(#[trigger] ms[i]),
        ) by {
            if i == 0 {
                assert(all[0] == line);
            } else {
                assert(all[i] == lines_of(index_body_of(rest))[i - 1]);
                assert(rest[i - 1] == ms[i]);
            }
        }
    }
}

/// An entry the index writer can render into a clean line: well-formed
/// scalar fields, a path under the root, and a relative part that still
/// names something once its slashes are trimmed.
pub open spec fn entry_renders_cleanly(root: Seq<char>, e: ImageEntry) -> bool {
    let core = strip_trailing_slashes(rel_view(root, e.0.path@));
    &&& wf_field(e.0.dist@)
    &&& wf_field(e.0.release@)
    &&& wf_field(e.0.arch@)
    &&& wf_field(e.0.type_@)
    &&& wf_field(e.0.name@)
    &&& is_prefix_of(root, e.0.path@)
    &&& core.len() > 0
    &&& !is_space(core[0])
    &&& !is_space(core.last())
    &&& forall|i: int| 0 <= i < core.len() ==> core[i] != ';' && core[i] != '\n'
}

/// Writing a set of scanned entries through the index writer and
/// re-parsing the body line by line yields each entry's record back, its
/// path normalized to the relative slash-terminated form the parser
/// produces.
pub proof fn lemma_rendered_index_reparses(root: Seq<char>, es: Seq<ImageEntry>)
    requires
        forall|i: int| 0 <= i < es.len() ==> entry_renders_cleanly(root, #[trigger] es[i]),
    ensures
        lines_of(rendered_lines(root, es)).len() == es.len(),
        forall|i: int|
            0 <= i < es.len() ==> parse_line(lines_of(rendered_lines(root, es))[i]) == Some(
                seq![
                    (#[trigger] es[i]).0.dist@,
                    es[i].0.release@,
                    es[i].0.arch@,
                    es[i].0.type_@,
                    es[i].0.name@,
                    strip_trailing_slashes(rel_view(root, es[i].0.path@)).push('/'),
                ],
            ),
    decreases es.len(),
{
    if es.len() == 0 {
        assert(split_char(Seq::<char>::empty(), '\n') =~~= seq![Seq::<char>::empty()]);
        assert(lines_of(rendered_lines(root, es)) =~~= Seq::<Seq<char>>::empty());
    } else {
        let e = es[0];
        let rel = rel_view(root, e.0.path@);
        let core = strip_trailing_slashes(rel);
        let normal = core.push('/');
        let sl = |c: char| c == '/';
        crate::text::lemma_drop_while_head(e.0.path@.skip(root.len() as int), sl);
        crate::text::lemma_drop_while_end_last(rel, sl);
        crate::text::lemma_drop_while_end_is_prefix(rel, sl);
        assert(core == rel.take(core.len() as int));
        assert(core[0] == rel[0]);
        assert(rel[0] != '/');
        assert(core.last() != '/');
        assert(wf_rel_path(normal)) by {
            assert(normal.last() == '/');
            assert(normal[0] == core[0]);
            assert(normal[normal.len() - 2] == core.last());
            assert(forall|i: int| 0 <= i < normal.len() - 1 ==> normal[i] == core[i]);
        }
        assert(strip_trailing_slashes(normal) == core) by {
            assert(strip_trailing_slashes(core) == core);
            assert(normal.last() == '/');
            assert(normal.drop_last() =~= core);
            assert(strip_trailing_slashes(normal) == strip_trailing_slashes(normal.drop_last()));
        }
        let line = index_line_of(e.0.dist@, e.0.release@, e.0.arch@, e.0.type_@, e.0.name@, rel);
        assert(line == index_line_of(
            e.0.dist@,
            e.0.release@,
            e.0.arch@,
            e.0.type_@,
            e.0.name@,
            normal,
        ));
        lemma_line_reparses(e.0.dist@, e.0.release@, e.0.arch@, e.0.type_@, e.0.name@, normal);
        lemma_line_shape_parts(e.0.dist@, e.0.release@, e.0.arch@, e.0.type_@, e.0.name@, rel);
        let rest = es.drop_first();
        assert(forall|i: int| 0 <= i < rest.len() ==> entry_renders_cleanly(
            root,
            #[trigger] rest[i],
        )) by {
            assert(forall|i: int| 0 <= i < rest.len() ==> rest[i] == es[i + 1]);
        }
        lemma_rendered_index_reparses(root, rest);
        lemma_lines_of_cons(line, rendered_lines(root, rest));
        let all = lines_of(rendered_lines(root, es));
        assert(all == seq![line] + lines_of(rendered_lines(root, rest)));
        assert forall|i: int| 0 <= i < es.len() implies parse_line(all[i]) == Some(
            seq![
                (#[trigger] es[i]).0.dist@,
                es[i].0.release@,
                es[i].0.arch@,
                es[i].0.type_@,
                es[i].0.name@,
                strip_trailing_slashes(rel_view(root, es[i].0.path@)).push('/'),
            ],
        ) by {
            if i == 0 {
                assert(all[0] == line);
            } else {
                assert(all[i] == lines_of(rendered_lines(root, rest))[i - 1]);
                assert(rest[i - 1] == es[i]);
            }
        }
    }
}

/// The sibling path the index's backup copy is written to: the primary
/// path with its extension replaced by `7`, or with `.7` appended when the
/// file name has no extension.
pub open spec fn find_last(s: Seq<char>, c: char) -> int
    decreases s.len(),
{
    if s.len() == 0 {
        -1
    } else if s.last() == c {
        s.len() - 1
    } else {
        find_last(s.drop_last(), c)
    }
}

proof fn lemma_find_last(s: Seq<char>, c: char)
    ensures
        -1 <= find_last(s, c) < s.len(),
        find_last(s, c) >= 0 ==> s[find_last(s, c)] == c,
        forall|j: int| find_last(s, c) < j < s.len() ==> s[j] != c,
    decreases s.len(),
{
    if s.len() > 0 && s.last() != c {
        lemma_find_last(s.drop_last(), c);
        assert(forall|j: int| 0 <= j < s.len() - 1 ==> s[j] == s.drop_last()[j]);
    }
}

/// The backup copy's path, as `find_last` describes: the extension after
/// the final dot of the file name is replaced by `7`; a file name without
/// one gains `.7`.
pub open spec fn backup_path_of(p: Seq<char>) -> Seq<char> {
    let slash = find_last(p, '/');
    let dot = find_last(p, '.');
    if dot > slash + 1 {
        p.take(dot) + seq!['.', '7']
    } else {
        p + seq!['.', '7']
    }
}

/// Computes the backup index path, as `backup_path_of` describes.
pub fn backup_index_path(path: &str) -> (r: String)
    ensures
        r@ == backup_path_of(path@),
{
    let n = path.unicode_len();
    let mut slash: usize = 0;
    let mut has_slash = false;
    let mut dot: usize = 0;
    let mut has_dot = false;
    let mut i: usize = 0;
    while i < n
        invariant
            n == path@.len(),
            0 <= i <= n,
            has_slash ==> slash < i && path@[slash as int] == '/',
            has_dot ==> dot < i && path@[dot as int] == '.',
            forall|j: int| 0 <= j < i && path@[j] == '/' ==> has_slash && j <= slash,
            forall|j: int| 0 <= j < i && path@[j] == '.' ==> has_dot && j <= dot,
        decreases n - i,
    {
        let c = path.get_char(i);
        if c == '/' {
            slash = i;
            has_slash = true;
        }
        if c == '.' {
            dot = i;
            has_dot = true;
        }
        i = i + 1;
    }
    proof {
        lemma_find_last(path@, '/');
        lemma_find_last(path@, '.');
        if has_slash {
            assert(find_last(path@, '/') == slash);
        } else {
            assert(find_last(path@, '/') == -1);
        }
        if has_dot {
            assert(find_last(path@, '.') == dot);
        } else {
            assert(find_last(path@, '.') == -1);
        }
    }
    let replace = if !has_dot {
        false
    } else if !has_slash {
        dot > 0
    } else {
        dot > slash + 1
    };
    let mut r: String;
    if replace {
        let stem = path.substring_char(0, dot);
        r = stem.to_owned();
    } else {
        r = path.to_owned();
    }
    r.append(".7");
    proof {
        reveal_strlit(".7");
        assert(".7"@.len() == 2);
        assert(".7"@ =~= seq!['.', '7']);
        assert(r@ =~= backup_path_of(path@));
    }
    r
}

/// One path joined under another, as the index writer lays files out: a
/// relative second part goes under the first, an absolute one replaces it.
pub open spec fn path_join_view(base: Seq<char>, rel: Seq<char>) -> Seq<char> {
    if rel.len() > 0 && rel[0] == '/' {
        rel
    } else if base.len() > 0 && base.last() == '/' {
        base + rel
    } else {
        base + seq!['/'] + rel
    }
}

/// Joins a path under a base directory, as `path_join_view` describes.
pub fn path_join(base: &str, rel: &str) -> (r: String)
    ensures
        r@ == path_join_view(base@, rel@),
{
    let rel_len = rel.unicode_len();
    if rel_len > 0 && rel.get_char(0) == '/' {
        return rel.to_owned();
    }
    let base_len = base.unicode_len();
    let mut r = base.to_owned();
    if !(base_len > 0 && base.get_char(base_len - 1) == '/') {
        r.append("/");
    }
    r.append(rel);
    proof {
        reveal_strlit("/");
        assert("/"@.len() == 1);
        assert("/"@ =~= seq!['/']);
        assert(r@ =~= path_join_view(base@, rel@));
    }
    r
}

/// Where the user-readable copy of the index lives, under the root.
pub fn user_index_path(root_dir: &str) -> (r: String)
    ensures
        r@ == path_join_view(root_dir@, "meta/1.0/index-user"@),
{
    path_join(root_dir, "meta/1.0/index-user")
}

/// The ownership decision for the persisted index files: the resolved
/// user and group, or a fatal ownership failure when the configured
/// username resolves to nobody.
pub fn ownership_ids(lookup: Option<(u32, u32)>) -> (r: Result<(u32, u32), Error>)
    ensures
        match r {
            Ok(ids) => lookup == Some(ids),
            Err(e) => e == Error::Ownership && lookup is None,
        },
{
    match lookup {
        Some(ids) => Ok(ids),
        None => Err(Error::Ownership),
    }
}

} // verus!
