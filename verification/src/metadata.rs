use vstd::prelude::*;
use vstd::string::StringExecFns;

verus! {

/// Which decimal digit each value below ten renders as.
pub open spec fn digit_char(d: nat) -> char {
    if d == 0 {
        '0'
    } else if d == 1 {
        '1'
    } else if d == 2 {
        '2'
    } else if d == 3 {
        '3'
    } else if d == 4 {
        '4'
    } else if d == 5 {
        '5'
    } else if d == 6 {
        '6'
    } else if d == 7 {
        '7'
    } else if d == 8 {
        '8'
    } else {
        '9'
    }
}

/// The decimal digits of `n`, most significant first.
pub open spec fn decimal_digits(n: nat) -> Seq<char>
    decreases n,
{
    if n < 10 {
        seq![digit_char(n)]
    } else {
        decimal_digits(n / 10).push(digit_char(n % 10))
    }
}

/// The decimal rendering of `n`: its digits, with a leading '-' when it is
/// negative.
pub open spec fn decimal_rep(n: int) -> Seq<char> {
    if n < 0 {
        seq!['-'] + decimal_digits((-n) as nat)
    } else {
        decimal_digits(n as nat)
    }
}

/// Appends one digit character.
fn append_digit(out: &mut String, d: u32)
    requires
        d < 10,
    ensures
        final(out)@ == old(out)@.push(digit_char(d as nat)),
{
    let digit_str: &str = if d == 0 {
        proof {
            reveal_strlit("0");
            assert("0"@ =~= seq![digit_char(d as nat)]);
        }
        "0"
    } else if d == 1 {
        proof {
            reveal_strlit("1");
            assert("1"@ =~= seq![digit_char(d as nat)]);
        }
        "1"
    } else if d == 2 {
        proof {
            reveal_strlit("2");
            assert("2"@ =~= seq![digit_char(d as nat)]);
        }
        "2"
    } else if d == 3 {
        proof {
            reveal_strlit("3");
            assert("3"@ =~= seq![digit_char(d as nat)]);
        }
        "3"
    } else if d == 4 {
        proof {
            reveal_strlit("4");
            assert("4"@ =~= seq![digit_char(d as nat)]);
        }
        "4"
    } else if d == 5 {
        proof {
            reveal_strlit("5");
            assert("5"@ =~= seq![digit_char(d as nat)]);
        }
        "5"
    } else if d == 6 {
        proof {
            reveal_strlit("6");
            assert("6"@ =~= seq![digit_char(d as nat)]);
        }
        "6"
    } else if d == 7 {
        proof {
            reveal_strlit("7");
            assert("7"@ =~= seq![digit_char(d as nat)]);
        }
        "7"
    } else if d == 8 {
        proof {
            reveal_strlit("8");
            assert("8"@ =~= seq![digit_char(d as nat)]);
        }
        "8"
    } else {
        proof {
            reveal_strlit("9");
            assert("9"@ =~= seq![digit_char(d as nat)]);
        }
        "9"
    };
    out.append(digit_str);
    proof {
        assert(out@ =~= old(out)@.push(digit_char(d as nat)));
    }
}

/// Appends the decimal digits of `n`, most significant first.
fn push_decimal_digits(n: u32, out: &mut String)
    ensures
        final(out)@ == old(out)@ + decimal_digits(n as nat),
    decreases n,
{
    if n < 10 {
        append_digit(out, n);
        proof {
            assert(out@ =~= old(out)@ + decimal_digits(n as nat));
        }
    } else {
        push_decimal_digits(n / 10, out);
        append_digit(out, n % 10);
        proof {
            assert(out@ =~= old(out)@ + decimal_digits(n as nat));
        }
    }
}

/// Renders a value as its decimal digits, with a leading '-' when negative.
fn i32_to_decimal(n: i32) -> (r: String)
    ensures
        r@ == decimal_rep(n as int),
{
    let mut out = String::new();
    if n < 0 {
        proof {
            reveal_strlit("-");
            assert("-"@ =~= seq!['-']);
        }
        out.append("-");
        let magnitude: i64 = -(n as i64);
        proof {
            assert(1 <= magnitude <= u32::MAX);
        }
        let mag: u32 = magnitude as u32;
        proof {
            assert(mag == -(n as int));
        }
        push_decimal_digits(mag, &mut out);
        proof {
            assert(out@ =~= decimal_rep(n as int));
        }
    } else {
        push_decimal_digits(n as u32, &mut out);
        proof {
            assert(out@ =~= decimal_rep(n as int));
        }
    }
    out
}

fn str_eq(a: &str, b: &str) -> (r: bool)
    ensures
        r == (a@ == b@),
{
    let left: String = a.to_owned();
    let right: String = b.to_owned();
    left == right
}

/// The canonical IRI under which an addressed object is published.
pub fn get_iri(id: i32) -> (r: String)
    ensures
        r@ == "https://serlo.org/"@ + decimal_rep(id as int),
{
    let prefix: String = "https://serlo.org/".to_owned();
    let digits = i32_to_decimal(id);
    prefix.concat(digits.as_str())
}

/// Which learning-resource label each stored entity type renders as; types
/// without a label render as the empty string.
pub open spec fn spec_learning_resource_type(t: Seq<char>) -> Seq<char> {
    if t == "article"@ || t == "course-page"@ {
        "Article"@
    } else if t == "course"@ {
        "Course"@
    } else if t == "text-exercise-group"@ || t == "text-exercise"@ {
        "Quiz"@
    } else if t == "video"@ {
        "Video"@
    } else {
        ""@
    }
}

pub fn get_learning_resource_type(entity_type: &str) -> (r: String)
    ensures
        r@ == spec_learning_resource_type(entity_type@),
{
    if str_eq(entity_type, "article") || str_eq(entity_type, "course-page") {
        "Article".to_owned()
    } else if str_eq(entity_type, "course") {
        "Course".to_owned()
    } else if str_eq(entity_type, "text-exercise-group") || str_eq(entity_type, "text-exercise") {
        "Quiz".to_owned()
    } else if str_eq(entity_type, "video") {
        "Video".to_owned()
    } else {
        "".to_owned()
    }
}

/// One entry of the metadata export, with every value the export computes
/// held as a plain field. The enclosing JSON-LD shapes are rendered outside
/// the library from these fields.
#[derive(Debug)]
pub struct EntityMetadata {
    pub id: String,
    pub schema_type: Vec<String>,
    pub date_created: String,
    pub date_modified: String,
    pub description: Option<String>,
    pub headline: Option<String>,
    pub identifier_value: i32,
    pub in_language: String,
    pub is_accessible_for_free: bool,
    pub is_family_friendly: bool,
    pub learning_resource_type: String,
    pub license_url: String,
    pub maintainer: String,
    pub name: String,
    pub publisher: String,
    pub version: String,
}

impl EntityMetadata {
    /// Computes one export entry from one stored entity row: the object and
    /// version IRIs, the resource-type label, and the title falling back to
    /// `"<label>: <iri>"` when the revision carries none.
    pub fn new(
        id: i32,
        resource_type: &str,
        title: Option<String>,
        meta_description: Option<String>,
        date_created: String,
        date_modified: String,
        version_id: i32,
        license_url: String,
        instance: String,
    ) -> (r: EntityMetadata)
        ensures
            r.id@ == "https://serlo.org/"@ + decimal_rep(id as int),
            r.schema_type@.len() == 2,
            r.schema_type@[0]@ == "LearningResource"@,
            r.schema_type@[1]@ == spec_learning_resource_type(resource_type@),
            r.date_created == date_created,
            r.date_modified == date_modified,
            r.description == meta_description,
            (match title {
                Some(t) => r.headline matches Some(h) && h@ == t@ && r.name@ == t@,
                None => r.headline is None && r.name@ == spec_learning_resource_type(
                    resource_type@,
                ) + ": "@ + "https://serlo.org/"@ + decimal_rep(id as int),
            }),
            r.identifier_value == id,
            r.in_language == instance,
            r.is_accessible_for_free,
            r.is_family_friendly,
            r.learning_resource_type@ == spec_learning_resource_type(resource_type@),
            r.license_url == license_url,
            r.maintainer@ == "https://serlo.org/"@,
            r.publisher@ == "https://serlo.org/"@,
            r.version@ == "https://serlo.org/"@ + decimal_rep(version_id as int),
    {
        let iri = get_iri(id);
        let label = get_learning_resource_type(resource_type);

        let mut schema_type: Vec<String> = Vec::new();
        schema_type.push("LearningResource".to_owned());
        schema_type.push(get_learning_resource_type(resource_type));

        let (headline, name) = match title {
            Some(t) => {
                let h = t.clone();
                (Some(h), t)
            },
            None => {
                let generated = label.clone().concat(": ").concat(iri.as_str());
                (None, generated)
            },
        };

        EntityMetadata {
            id: iri,
            schema_type,
            date_created,
            date_modified,
            description: meta_description,
            headline,
            identifier_value: id,
            in_language: instance,
            is_accessible_for_free: true,
            is_family_friendly: true,
            learning_resource_type: label,
            license_url,
            maintainer: "https://serlo.org/".to_owned(),
            name,
            publisher: "https://serlo.org/".to_owned(),
            version: get_iri(version_id),
        }
    }
}

} // verus!
