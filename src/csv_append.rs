use vstd::prelude::*;

verus! {

/// Header row of the ratings log.
pub const RATINGS_HEADER: &'static str = "SubID,PartnerID,dyad,computer,subjectInitials,saveFolder,raName,sessionTime,sessionDate,timestamp,taskOrder,Rating,EmoRating,EmoRating_Person,Time,stopTime,Movietime,Shift,Description,trialNumber,softwareVersion";

/// Header row of the transitions log.
pub const TRANSITIONS_HEADER: &'static str = "dyadId,participantId,partnerId,computer,subjectInitials,saveFolder,raName,sessionTime,sessionDate,sessionTimestamp,ratingTask,subTask,emotion1,emotion2,ratingPerson,response,trialNumber,softwareVersion";

/// A row as it stands in the file: the row, then a newline.
pub open spec fn line_of(row: Seq<char>) -> Seq<char> {
    row.push('\n')
}

/// The parts written one after the other.
pub open spec fn concat(parts: Seq<Seq<char>>) -> Seq<char>
    decreases parts.len(),
{
    if parts.len() == 0 {
        Seq::empty()
    } else {
        concat(parts.drop_last()) + parts.last()
    }
}

/// The rows one append writes: the header first when the file did not exist,
/// then the given lines in their order.
pub open spec fn rows_written(existed: bool, header: Seq<char>, lines: Seq<Seq<char>>) -> Seq<
    Seq<char>,
> {
    if existed {
        lines
    } else {
        seq![header] + lines
    }
}

/// The records one append writes, each a whole line.
pub open spec fn records(existed: bool, header: Seq<char>, lines: Seq<Seq<char>>) -> Seq<
    Seq<char>,
> {
    rows_written(existed, header, lines).map_values(|row: Seq<char>| line_of(row))
}

/// Rows as text, each on a line of its own.
pub open spec fn rows_text(rows: Seq<Seq<char>>) -> Seq<char> {
    concat(rows.map_values(|row: Seq<char>| line_of(row)))
}

/// The text one append adds to the end of the file.
pub open spec fn appended_text(existed: bool, header: Seq<char>, lines: Seq<Seq<char>>) -> Seq<
    char,
> {
    rows_text(rows_written(existed, header, lines))
}

/// What a file holds after an append of `lines` has succeeded, given what it
/// held before (`None`: there was no file).
pub open spec fn content_after(
    before: Option<Seq<char>>,
    header: Seq<char>,
    lines: Seq<Seq<char>>,
) -> Seq<char> {
    match before {
        Some(b) => b + appended_text(true, header, lines),
        None => appended_text(false, header, lines),
    }
}

/// The records to append to a CSV log, in the order they are to be written:
/// the header line when the file did not exist before the append, then each
/// of `lines`, each followed by a newline. Written one after the other they
/// give exactly the text that the append adds.
pub fn append_records(file_existed: bool, header: &str, lines: &Vec<String>) -> (r: Vec<String>)
    ensures
        r.deep_view() == records(file_existed, header@, lines.deep_view()),
        concat(r.deep_view()) == appended_text(file_existed, header@, lines.deep_view()),
{
    proof {
        reveal_strlit("\n");
        assert("\n"@ =~= seq!['\n']);
    }
    let ghost rows = lines.deep_view();
    let mut r: Vec<String> = Vec::new();
    if !file_existed {
        let mut h = String::from_str(header);
        h.append("\n");
        assert(h@ =~= line_of(header@));
        r.push(h);
    }
    proof {
        assert(rows.take(0) =~= Seq::<Seq<char>>::empty());
        assert(r.deep_view() =~= records(file_existed, header@, rows.take(0)));
    }
    let mut i: usize = 0;
    while i < lines.len()
        invariant
            i <= lines.len(),
            rows == lines.deep_view(),
            "\n"@ == seq!['\n'],
            r.deep_view() == records(file_existed, header@, rows.take(i as int)),
        decreases lines.len() - i,
    {
        assert(rows[i as int] == lines@[i as int]@);
        let mut l = lines[i].clone();
        l.append("\n");
        assert(l@ =~= line_of(rows[i as int]));
        let ghost before = r.deep_view();
        r.push(l);
        proof {
            assert(rows.take(i + 1) =~= rows.take(i as int).push(rows[i as int]));
            assert(rows_written(file_existed, header@, rows.take(i + 1)) =~= rows_written(
                file_existed,
                header@,
                rows.take(i as int),
            ).push(rows[i as int]));
            assert(r.deep_view() =~= before.push(line_of(rows[i as int])));
            assert(r.deep_view() =~= records(file_existed, header@, rows.take(i + 1)));
        }
        i += 1;
    }
    proof {
        assert(rows.take(lines.len() as int) =~= rows);
    }
    r
}

/// The records to append to the ratings log.
pub fn ratings_records(file_existed: bool, contents: &Vec<String>) -> (r: Vec<String>)
    ensures
        r.deep_view() == records(file_existed, RATINGS_HEADER@, contents.deep_view()),
        concat(r.deep_view()) == appended_text(
            file_existed,
            RATINGS_HEADER@,
            contents.deep_view(),
        ),
{
    append_records(file_existed, RATINGS_HEADER, contents)
}

/// The records to append to the transitions log.
pub fn transitions_records(file_existed: bool, contents: &Vec<String>) -> (r: Vec<String>)
    ensures
        r.deep_view() == records(file_existed, TRANSITIONS_HEADER@, contents.deep_view()),
        concat(r.deep_view()) == appended_text(
            file_existed,
            TRANSITIONS_HEADER@,
            contents.deep_view(),
        ),
{
    append_records(file_existed, TRANSITIONS_HEADER, contents)
}

/// Writing two sequences of parts one after the other writes their concatenation.
pub proof fn lemma_concat_split(a: Seq<Seq<char>>, b: Seq<Seq<char>>)
    ensures
        concat(a + b) == concat(a) + concat(b),
    decreases b.len(),
{
    if b.len() == 0 {
        assert(a + b =~= a);
        assert(concat(b) =~= Seq::<char>::empty());
        assert(concat(a) + concat(b) =~= concat(a));
    } else {
        lemma_concat_split(a, b.drop_last());
        assert((a + b).drop_last() =~= a + b.drop_last());
        assert(concat(a) + concat(b) =~= concat(a) + concat(b.drop_last()) + b.last());
    }
}

/// Rows written in two batches give the text of all of them, in order.
pub proof fn lemma_rows_text_split(a: Seq<Seq<char>>, b: Seq<Seq<char>>)
    ensures
        rows_text(a + b) == rows_text(a) + rows_text(b),
{
    let f = |row: Seq<char>| line_of(row);
    assert((a + b).map_values(f) =~= a.map_values(f) + b.map_values(f));
    lemma_concat_split(a.map_values(f), b.map_values(f));
}

/// A single row as text is its line.
pub proof fn lemma_rows_text_one(row: Seq<char>)
    ensures
        rows_text(seq![row]) == line_of(row),
{
    let parts = seq![row].map_values(|r: Seq<char>| line_of(r));
    assert(parts.drop_last() =~= Seq::<Seq<char>>::empty());
    assert(concat(parts.drop_last()) =~= Seq::<char>::empty());
    assert(concat(parts) =~= line_of(row));
}

/// Appending no lines to a file that did not exist leaves the header line alone
/// in it.
pub proof fn fresh_file_holds_header(header: Seq<char>)
    ensures
        content_after(None, header, seq![]) == line_of(header),
{
    assert(rows_written(false, header, seq![]) =~= seq![header]);
    lemma_rows_text_one(header);
}

/// Appending to a file that exists keeps what it held, byte for byte, and adds
/// exactly the given lines, each ended by a newline, with no header.
pub proof fn existing_file_keeps_content(
    before: Seq<char>,
    header: Seq<char>,
    lines: Seq<Seq<char>>,
)
    ensures
        content_after(Some(before), header, lines) == before + rows_text(lines),
        content_after(Some(before), header, lines).subrange(0, before.len() as int) == before,
{
    assert((before + rows_text(lines)).subrange(0, before.len() as int) =~= before);
}

/// Two appends in a row to a file that did not exist write the header once, at
/// the top, followed by the lines of both appends in order.
pub proof fn header_written_once(
    header: Seq<char>,
    first: Seq<Seq<char>>,
    second: Seq<Seq<char>>,
)
    ensures
        content_after(Some(content_after(None, header, first)), header, second) == line_of(header)
            + rows_text(first + second),
{
    lemma_rows_text_split(seq![header], first);
    lemma_rows_text_one(header);
    lemma_rows_text_split(first, second);
    assert(content_after(None, header, first) == line_of(header) + rows_text(first));
    assert(line_of(header) + rows_text(first) + rows_text(second) =~= line_of(header) + (
    rows_text(first) + rows_text(second)));
}

/// After an append, each given line stands on a line of its own, after the
/// lines that come before it in the batch and before those that follow it.
pub proof fn lines_kept_in_order(
    before: Option<Seq<char>>,
    header: Seq<char>,
    lines: Seq<Seq<char>>,
    i: int,
)
    requires
        0 <= i < lines.len(),
    ensures
        content_after(before, header, lines) == (match before {
            Some(b) => b,
            None => line_of(header),
        }) + rows_text(lines.take(i)) + line_of(lines[i]) + rows_text(lines.skip(i + 1)),
{
    let prefix = match before {
        Some(b) => b,
        None => line_of(header),
    };
    assert(lines =~= lines.take(i) + (seq![lines[i]] + lines.skip(i + 1)));
    lemma_rows_text_split(lines.take(i), seq![lines[i]] + lines.skip(i + 1));
    lemma_rows_text_split(seq![lines[i]], lines.skip(i + 1));
    lemma_rows_text_one(lines[i]);
    lemma_rows_text_split(seq![header], lines);
    lemma_rows_text_one(header);
    assert(content_after(before, header, lines) == prefix + rows_text(lines));
    assert(prefix + rows_text(lines) =~= prefix + rows_text(lines.take(i)) + line_of(lines[i])
        + rows_text(lines.skip(i + 1)));
}

} // verus!
