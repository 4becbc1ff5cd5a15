//! Filename and container validation, video detection and output names.

use crate::text::{
    ascii_lower, char_is_ascii_alphanumeric, char_is_control, char_is_whitespace, chars_of, copy_range,
    is_ascii_alphanumeric, is_control, is_whitespace, lower_vec, matches_at, sort_strings,
    sorted_texts, string_of, views_of,
};
use vstd::prelude::*;

verus! {

broadcast use vstd::string::group_string_axioms;

/// Extensions (compared case-insensitively) that mark a file as a video.
pub const VIDEO_EXTENSIONS: [&'static str; 5] = ["mp4", "mkv", "mov", "avi", "webm"];

/// Why a name or a set of names was refused.
#[derive(Debug, Clone, PartialEq, Eq)]
pub enum PathError {
    /// The name is empty, `.`, `..`, or holds `/`, `\` or a control character.
    InvalidFilename(String),
    /// The container is not made of ASCII letters and digits only.
    InvalidContainer(String),
    /// Two input files would be published under the same output name
    /// (compared ASCII-case-insensitively).
    OutputCollision { previous: String, file: String, output: String },
}

// ---------------------------------------------------------------------
// Specifications
// ---------------------------------------------------------------------

/// A simple file name: not empty, not `.` or `..`, and free of `/`, `\`
/// and control characters.
pub open spec fn valid_filename(name: Seq<char>) -> bool {
    &&& name.len() > 0
    &&& name != seq!['.']
    &&& name != seq!['.', '.']
    &&& forall|i: int|
        0 <= i < name.len() ==> {
            let c = #[trigger] name[i];
            c != '/' && c != '\\' && !is_control(c)
        }
}

/// `i` is the index of the last `c` in `s`.
pub open spec fn is_last_index(s: Seq<char>, c: char, i: int) -> bool {
    &&& 0 <= i < s.len()
    &&& s[i] == c
    &&& forall|j: int| i < j < s.len() ==> s[j] != c
}

/// The index of the last `c` in `s` (what `str::rsplit_once(c)` splits at).
pub open spec fn last_index(s: Seq<char>, c: char) -> Option<int> {
    if exists|i: int| is_last_index(s, c, i) {
        Some(choose|i: int| is_last_index(s, c, i))
    } else {
        None
    }
}

/// The extension of a name: what follows its last `.`.
pub open spec fn extension(name: Seq<char>) -> Option<Seq<char>> {
    match last_index(name, '.') {
        Some(k) => Some(name.skip(k + 1)),
        None => None,
    }
}

pub open spec fn video_extension(ext: Seq<char>) -> bool {
    ||| ext == seq!['m', 'p', '4']
    ||| ext == seq!['m', 'k', 'v']
    ||| ext == seq!['m', 'o', 'v']
    ||| ext == seq!['a', 'v', 'i']
    ||| ext == seq!['w', 'e', 'b', 'm']
}

/// A recognized video: its extension, lowercased, is one of
/// `VIDEO_EXTENSIONS`.
pub open spec fn is_video_name(name: Seq<char>) -> bool {
    match extension(name) {
        Some(ext) => video_extension(ascii_lower(ext)),
        None => false,
    }
}

/// The name without its last extension (the whole name if it has none).
pub open spec fn stem(name: Seq<char>) -> Seq<char> {
    match last_index(name, '.') {
        Some(k) => name.take(k),
        None => name,
    }
}

/// The published name of `input` for `container`: `stem.container`.
pub open spec fn output_name_spec(input: Seq<char>, container: Seq<char>) -> Seq<char> {
    stem(input) + seq!['.'] + container
}

pub open spec fn trim_start(s: Seq<char>) -> Seq<char>
    decreases s.len(),
{
    if s.len() > 0 && is_whitespace(s[0]) {
        trim_start(s.drop_first())
    } else {
        s
    }
}

pub open spec fn trim_end(s: Seq<char>) -> Seq<char>
    decreases s.len(),
{
    if s.len() > 0 && is_whitespace(s.last()) {
        trim_end(s.drop_last())
    } else {
        s
    }
}

/// `str::trim`: Unicode whitespace removed from both ends.
pub open spec fn trim(s: Seq<char>) -> Seq<char> {
    trim_end(trim_start(s))
}

/// The container a configuration or a request asks for: blank means
/// `mp4`; anything else must be ASCII letters and digits (after trimming).
pub open spec fn normalized_container(container: Seq<char>) -> Option<Seq<char>> {
    let c = trim(container);
    if c.len() == 0 {
        Some(seq!['m', 'p', '4'])
    } else if forall|i: int| 0 <= i < c.len() ==> is_ascii_alphanumeric(#[trigger] c[i]) {
        Some(c)
    } else {
        None
    }
}

/// The key under which two outputs collide: the lowercased output name.
pub open spec fn collision_key(file: Seq<char>, container: Seq<char>) -> Seq<char> {
    ascii_lower(output_name_spec(file, container))
}

pub open spec fn collision_keys(files: Seq<String>, container: Seq<char>) -> Seq<Seq<char>> {
    files.map_values(|f: String| collision_key(f@, container))
}

/// No two of the first `n` keys are equal.
pub open spec fn distinct_prefix(keys: Seq<Seq<char>>, n: int) -> bool {
    forall|i: int, j: int| 0 <= i < j < n ==> keys[i] != keys[j]
}

/// `(i, j)` is the first collision: `j` is the earliest file whose key
/// repeats an earlier one, and `i` is that earlier file.
pub open spec fn first_collision(keys: Seq<Seq<char>>, i: int, j: int) -> bool {
    &&& 0 <= i < j < keys.len()
    &&& keys[i] == keys[j]
    &&& distinct_prefix(keys, j)
}

// ---------------------------------------------------------------------
// Lemmas
// ---------------------------------------------------------------------

proof fn lemma_last_index_unique(s: Seq<char>, c: char, i: int)
    requires
        is_last_index(s, c, i),
    ensures
        last_index(s, c) == Some(i),
{
    let k = choose|k: int| is_last_index(s, c, k);
    assert(is_last_index(s, c, k));
    if k < i {
        assert(s[i] == c);
    } else if i < k {
        assert(s[k] == c);
    }
}

proof fn lemma_trim_start(s: Seq<char>, i: int)
    requires
        0 <= i <= s.len(),
        forall|j: int| 0 <= j < i ==> is_whitespace(#[trigger] s[j]),
        i == s.len() || !is_whitespace(s[i]),
    ensures
        trim_start(s) == s.skip(i),
    decreases i,
{
    if i > 0 {
        lemma_trim_start(s.drop_first(), i - 1);
        assert(s.drop_first().skip(i - 1) =~= s.skip(i));
    } else {
        assert(s.skip(0) =~= s);
    }
}

proof fn lemma_trim_end(s: Seq<char>, j: int)
    requires
        0 <= j <= s.len(),
        forall|k: int| j <= k < s.len() ==> is_whitespace(#[trigger] s[k]),
        j == 0 || !is_whitespace(s[j - 1]),
    ensures
        trim_end(s) == s.take(j),
    decreases s.len() - j,
{
    if j < s.len() {
        lemma_trim_end(s.drop_last(), j);
        assert(s.drop_last().take(j) =~= s.take(j));
    } else {
        assert(s.take(j) =~= s);
    }
}

// ---------------------------------------------------------------------
// Executable functions
// ---------------------------------------------------------------------

/// The index of the last `c` in `v`.
pub fn last_index_of(v: &Vec<char>, c: char) -> (r: Option<usize>)
    ensures
        r matches Some(i) ==> last_index(v@, c) == Some(i as int) && is_last_index(v@, c, i as int),
        r is None ==> last_index(v@, c) is None && forall|j: int| 0 <= j < v@.len() ==> v@[j] != c,
{
    let mut k: usize = v.len();
    while k > 0
        invariant
            k <= v.len(),
            forall|j: int| k <= j < v@.len() ==> v@[j] != c,
        decreases k,
    {
        if v[k - 1] == c {
            proof {
                lemma_last_index_unique(v@, c, k - 1);
            }
            return Some(k - 1);
        }
        k -= 1;
    }
    proof {
        if exists|i: int| is_last_index(v@, c, i) {
            let i = choose|i: int| is_last_index(v@, c, i);
            assert(v@[i] == c);
        }
    }
    None
}

/// Whether `name` is a simple file name (see `valid_filename`).
pub fn is_valid_filename(name: &str) -> (r: bool)
    ensures
        r == valid_filename(name@),
{
    let v = chars_of(name);
    if v.len() == 0 {
        return false;
    }
    if v.len() == 1 && v[0] == '.' {
        assert(v@ =~= seq!['.']);
        return false;
    }
    if v.len() == 2 && v[0] == '.' && v[1] == '.' {
        assert(v@ =~= seq!['.', '.']);
        return false;
    }
    let mut i: usize = 0;
    while i < v.len()
        invariant
            i <= v.len(),
            v@ == name@,
            forall|j: int|
                0 <= j < i ==> {
                    let c = #[trigger] v@[j];
                    c != '/' && c != '\\' && !is_control(c)
                },
        decreases v.len() - i,
    {
        let c = v[i];
        if c == '/' || c == '\\' || char_is_control(c) {
            assert(v@[i as int] == c);
            return false;
        }
        i += 1;
    }
    assert(v@ != seq!['.'] && v@ != seq!['.', '.']) by {
        if v@ == seq!['.'] {
            assert(v.len() == 1 && v@[0] == '.');
        }
        if v@ == seq!['.', '.'] {
            assert(v.len() == 2 && v@[0] == '.' && v@[1] == '.');
        }
    }
    true
}

/// Refuses a name that is not a simple file name.
pub fn validate_filename(name: &str) -> (r: Result<(), PathError>)
    ensures
        r is Ok <==> valid_filename(name@),
        r matches Err(e) ==> (e matches PathError::InvalidFilename(n) && n@ == name@),
{
    if !is_valid_filename(name) {
        return Err(PathError::InvalidFilename(name.to_owned()));
    }
    Ok(())
}

/// The characters of `v` with surrounding Unicode whitespace removed.
pub fn trim_vec(v: &Vec<char>) -> (r: Vec<char>)
    ensures
        r@ == trim(v@),
{
    let mut i: usize = 0;
    while i < v.len() && char_is_whitespace(v[i])
        invariant
            i <= v.len(),
            forall|j: int| 0 <= j < i ==> is_whitespace(#[trigger] v@[j]),
        decreases v.len() - i,
    {
        i += 1;
    }
    proof {
        lemma_trim_start(v@, i as int);
    }
    let ghost t = v@.skip(i as int);
    let mut j: usize = v.len();
    while j > i && char_is_whitespace(v[j - 1])
        invariant
            i <= j <= v.len(),
            t == v@.skip(i as int),
            forall|k: int| j <= k < v@.len() ==> is_whitespace(#[trigger] v@[k]),
        decreases j,
    {
        j -= 1;
    }
    proof {
        assert forall|k: int| (j - i) <= k < t.len() implies is_whitespace(#[trigger] t[k]) by {
            assert(t[k] == v@[k + i]);
        }
        lemma_trim_end(t, j - i);
        assert(t.take(j - i) =~= v@.subrange(i as int, j as int));
    }
    copy_range(v, i, j)
}

/// The container to use: blank becomes `mp4`; otherwise the trimmed text,
/// which must be ASCII letters and digits only.
pub fn normalize_container(container: &str) -> (r: Result<String, PathError>)
    ensures
        normalized_container(container@) matches Some(c) ==> (r matches Ok(s) && s@ == c),
        normalized_container(container@) is None ==> (r matches Err(e) && e matches PathError::InvalidContainer(n) && n@ == container@),
{
    let v = chars_of(container);
    let c = trim_vec(&v);
    if c.len() == 0 {
        let m = chars_of("mp4");
        proof {
            reveal_strlit("mp4");
        }
        assert(m@ =~= seq!['m', 'p', '4']);
        return Ok(string_of(m.as_slice()));
    }
    let mut i: usize = 0;
    while i < c.len()
        invariant
            i <= c.len(),
            c@ == trim(container@),
            c@.len() > 0,
            forall|j: int| 0 <= j < i ==> is_ascii_alphanumeric(#[trigger] c@[j]),
        decreases c.len() - i,
    {
        if !char_is_ascii_alphanumeric(c[i]) {
            assert(!is_ascii_alphanumeric(c@[i as int]));
            assert(c@ == trim(container@));
            assert(normalized_container(container@) is None);
            return Err(PathError::InvalidContainer(container.to_owned()));
        }
        i += 1;
    }
    Ok(string_of(c.as_slice()))
}

/// Whether a lowercase extension is one of `VIDEO_EXTENSIONS`.
fn is_video_extension(ext: &Vec<char>) -> (r: bool)
    ensures
        r == video_extension(ext@),
{
    let mut i: usize = 0;
    while i < VIDEO_EXTENSIONS.len()
        invariant
            i <= 5,
            forall|k: int| 0 <= k < i ==> ext@ != #[trigger] VIDEO_EXTENSIONS@[k]@,
        decreases 5 - i,
    {
        let e = chars_of(VIDEO_EXTENSIONS[i]);
        if matches_at(ext, &e, 0) && ext.len() == e.len() {
            proof {
                assert(ext@ =~= e@);
                reveal_strlit("mp4");
                reveal_strlit("mkv");
                reveal_strlit("mov");
                reveal_strlit("avi");
                reveal_strlit("webm");
                assert(VIDEO_EXTENSIONS@[0]@ =~= seq!['m', 'p', '4']);
                assert(VIDEO_EXTENSIONS@[1]@ =~= seq!['m', 'k', 'v']);
                assert(VIDEO_EXTENSIONS@[2]@ =~= seq!['m', 'o', 'v']);
                assert(VIDEO_EXTENSIONS@[3]@ =~= seq!['a', 'v', 'i']);
                assert(VIDEO_EXTENSIONS@[4]@ =~= seq!['w', 'e', 'b', 'm']);
                assert(e@ == VIDEO_EXTENSIONS@[i as int]@);
            }
            return true;
        }
        proof {
            if ext@ == e@ {
                assert(ext@.subrange(0, e@.len() as int) =~= ext@);
            }
        }
        i += 1;
    }
    proof {
        reveal_strlit("mp4");
        reveal_strlit("mkv");
        reveal_strlit("mov");
        reveal_strlit("avi");
        reveal_strlit("webm");
        assert(VIDEO_EXTENSIONS@[0]@ =~= seq!['m', 'p', '4']);
        assert(VIDEO_EXTENSIONS@[1]@ =~= seq!['m', 'k', 'v']);
        assert(VIDEO_EXTENSIONS@[2]@ =~= seq!['m', 'o', 'v']);
        assert(VIDEO_EXTENSIONS@[3]@ =~= seq!['a', 'v', 'i']);
        assert(VIDEO_EXTENSIONS@[4]@ =~= seq!['w', 'e', 'b', 'm']);
    }
    false
}

/// Whether `name` has a video extension (case-insensitive).
pub fn is_video(name: &str) -> (r: bool)
    ensures
        r == is_video_name(name@),
{
    let v = chars_of(name);
    match last_index_of(&v, '.') {
        Some(k) => {
            let n = v.len();
            assert(is_last_index(v@, '.', k as int));
            assert(k < n);
            let ext = copy_range(&v, k + 1, n);
            let lower = lower_vec(&ext);
            assert(ext@ =~= v@.skip(k + 1));
            is_video_extension(&lower)
        },
        None => false,
    }
}

/// The output characters for `input` and `container`.
fn output_chars(input: &Vec<char>, container: &Vec<char>) -> (r: Vec<char>)
    ensures
        r@ == output_name_spec(input@, container@),
{
    let mut r = match last_index_of(input, '.') {
        Some(k) => copy_range(input, 0, k),
        None => copy_range(input, 0, input.len()),
    };
    assert(r@ =~= stem(input@));
    r.push('.');
    let mut i: usize = 0;
    while i < container.len()
        invariant
            i <= container.len(),
            r@ == stem(input@) + seq!['.'] + container@.take(i as int),
        decreases container.len() - i,
    {
        r.push(container[i]);
        i += 1;
        assert(r@ =~= stem(input@) + seq!['.'] + container@.take(i as int));
    }
    assert(container@.take(i as int) =~= container@);
    r
}

/// The published name of `input`: its stem followed by `.container`.
pub fn output_name(input: &str, container: &str) -> (r: String)
    ensures
        r@ == output_name_spec(input@, container@),
{
    let i = chars_of(input);
    let c = chars_of(container);
    let o = output_chars(&i, &c);
    string_of(o.as_slice())
}

/// Whether two character vectors are equal.
pub fn same_chars(a: &Vec<char>, b: &Vec<char>) -> (r: bool)
    ensures
        r == (a@ == b@),
{
    if a.len() != b.len() {
        return false;
    }
    let r = matches_at(a, b, 0);
    proof {
        if r {
            assert(a@ =~= a@.subrange(0, b@.len() as int));
        }
        if a@ == b@ {
            assert(a@.subrange(0, b@.len() as int) =~= a@);
        }
    }
    r
}

/// Refuses a list of inputs of which two would be published under the same
/// name (ignoring ASCII case), naming the first such pair.
pub fn check_output_collisions(files: &[String], container: &str) -> (r: Result<(), PathError>)
    ensures
        r is Ok <==> distinct_prefix(
            collision_keys(files@, container@),
            files@.len() as int,
        ),
        r matches Err(e) ==> (e matches PathError::OutputCollision { previous, file, output }
            && exists|i: int, j: int|
            first_collision(collision_keys(files@, container@), i, j) && previous@ == files@[i]@
                && file@ == files@[j]@ && output@ == collision_keys(files@, container@)[j]),
{
    let ghost keys = collision_keys(files@, container@);
    let c = chars_of(container);
    let mut seen: Vec<Vec<char>> = Vec::new();
    let mut j: usize = 0;
    while j < files.len()
        invariant
            j <= files.len(),
            c@ == container@,
            keys == collision_keys(files@, container@),
            seen@.len() == j,
            forall|k: int| 0 <= k < j ==> #[trigger] seen@[k]@ == keys[k],
            distinct_prefix(keys, j as int),
        decreases files.len() - j,
    {
        let f = chars_of(files[j].as_str());
        let out = output_chars(&f, &c);
        let key = lower_vec(&out);
        assert(key@ == keys[j as int]);
        let mut i: usize = 0;
        while i < j
            invariant
                i <= j,
                j < files.len(),
                seen@.len() == j,
                keys == collision_keys(files@, container@),
                keys.len() == files@.len(),
                distinct_prefix(keys, j as int),
                forall|k: int| 0 <= k < j ==> #[trigger] seen@[k]@ == keys[k],
                forall|k: int| 0 <= k < i ==> keys[k] != keys[j as int],
                key@ == keys[j as int],
            decreases j - i,
        {
            if same_chars(&seen[i], &key) {
                let output = string_of(key.as_slice());
                let err = PathError::OutputCollision {
                    previous: files[i].clone(),
                    file: files[j].clone(),
                    output,
                };
                assert(seen@[i as int]@ == keys[i as int]);
                assert(keys[i as int] == keys[j as int]);
                assert(first_collision(keys, i as int, j as int));
                assert(!distinct_prefix(keys, files@.len() as int));
                assert(output@ == keys[j as int]);
                return Err(err);
            }
            i += 1;
        }
        seen.push(key);
        j += 1;
        assert forall|k: int| 0 <= k < j implies #[trigger] seen@[k]@ == keys[k] by {}
    }
    Ok(())
}

/// The recognized videos among the names of regular files of a folder,
/// sorted; a video with an unusable name stops the scan.
pub fn select_videos(names: Vec<String>) -> (r: Result<Vec<String>, PathError>)
    ensures
        r matches Ok(v) ==> (sorted_texts(views_of(v@)) && v@.to_multiset() == names@.filter(
            |n: String| is_video_name(n@),
        ).to_multiset()),
        r is Err <==> exists|k: int|
            0 <= k < names@.len() && is_video_name(names@[k]@) && !valid_filename(
                #[trigger] names@[k]@,
            ),
        r matches Err(e) ==> (e matches PathError::InvalidFilename(n) && exists|k: int|
            0 <= k < names@.len() && is_video_name(names@[k]@) && !valid_filename(names@[k]@)
                && n@ == #[trigger] names@[k]@ && forall|q: int|
                0 <= q < k && is_video_name(names@[q]@) ==> valid_filename(names@[q]@)),
{
    let ghost pred = |n: String| is_video_name(n@);
    let mut videos: Vec<String> = Vec::new();
    let mut k: usize = 0;
    while k < names.len()
        invariant
            k <= names.len(),
            pred == (|n: String| is_video_name(n@)),
            videos@ == names@.take(k as int).filter(pred),
            forall|q: int| 0 <= q < k && is_video_name(names@[q]@) ==> valid_filename(
                #[trigger] names@[q]@,
            ),
        decreases names.len() - k,
    {
        let name = &names[k];
        proof {
            names@.take(k as int).lemma_filter_push(names@[k as int], pred);
            assert(names@.take(k + 1) =~= names@.take(k as int).push(names@[k as int]));
        }
        if is_video(name.as_str()) {
            match validate_filename(name.as_str()) {
                Err(e) => {
                    assert(!valid_filename(names@[k as int]@));
                    return Err(e);
                },
                Ok(()) => {},
            }
            videos.push(name.clone());
        }
        k += 1;
    }
    assert(names@.take(k as int) =~= names@);
    let sorted = sort_strings(videos);
    Ok(sorted)
}

/// A worker publishes an encode under `output_name`; with a valid input
/// name and an already normalized container, that name always passes the
/// file-name check the head applies before publishing it.
pub proof fn law_output_name_valid(input: Seq<char>, container: Seq<char>)
    requires
        valid_filename(input),
        normalized_container(container) == Some(container),
    ensures
        valid_filename(output_name_spec(input, container)),
{
    let st = stem(input);
    let out = output_name_spec(input, container);
    let c = trim(container);
    assert(container.len() > 0 && forall|i: int|
        0 <= i < container.len() ==> is_ascii_alphanumeric(#[trigger] container[i])) by {
        reveal_with_fuel(trim_start, 1);
        if c.len() == 0 {
            assert(container == seq!['m', 'p', '4']);
        }
    }
    assert(st.len() <= input.len());
    assert forall|i: int| 0 <= i < st.len() implies st[i] == input[i] by {
        match last_index(input, '.') {
            Some(k) => {
                assert(is_last_index(input, '.', k));
            },
            None => {},
        }
    }
    assert forall|i: int| 0 <= i < out.len() implies {
        let ch = #[trigger] out[i];
        ch != '/' && ch != '\\' && !is_control(ch)
    } by {
        if i < st.len() {
            assert(out[i] == st[i]);
            assert(st[i] == input[i]);
        } else if i == st.len() {
            assert(out[i] == '.');
        } else {
            assert(out[i] == container[i - st.len() - 1]);
        }
    }
    assert(out.len() >= 2);
    if out.len() == 2 {
        assert(out[1] == container[0]);
        assert(out != seq!['.', '.']);
    }
}

} // verus!
