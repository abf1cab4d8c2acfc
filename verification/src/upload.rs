//! A file that is sent to the service as the fields of a form.

use crate::api::{bad_request, ErrorResponse};
use crate::text::same_text;
use vstd::prelude::*;

verus! {

/// A field of the form. `M` is a mode of desensitization.
pub struct UploadField<M> {
    pub name: String,
    /// The name of the file, if the field is one.
    pub file_name: Option<String>,
    /// The content of the file, if it could be read.
    pub data: Option<Vec<u8>>,
    /// The mode that the text of the field names: `None` if there is no text, `Some(None)` if
    /// the text names no mode.
    pub mode: Option<Option<M>>,
}

/// The file and the mode that a form asks for.
pub struct Upload<M> {
    pub filename: String,
    pub data: Vec<u8>,
    pub mode: M,
}

/// The name of the last file of a form.
pub open spec fn file_name_in<M>(fields: Seq<UploadField<M>>) -> Seq<char>
    decreases fields.len(),
{
    if fields.len() == 0 {
        "upload.pdf"@
    } else {
        match fields.last().file_name {
            Some(name) => name@,
            None => file_name_in(fields.drop_last()),
        }
    }
}

/// The content of the last file of a form that could be read.
pub open spec fn data_in<M>(fields: Seq<UploadField<M>>) -> Seq<u8>
    decreases fields.len(),
{
    if fields.len() == 0 {
        Seq::empty()
    } else {
        match (fields.last().file_name, fields.last().data) {
            (Some(_), Some(data)) => data@,
            _ => data_in(fields.drop_last()),
        }
    }
}

/// What a field says of the mode: nothing, or what its text names.
pub open spec fn mode_in_field<M>(field: UploadField<M>) -> Option<Option<M>> {
    if field.file_name is None && field.name@ == "desensitize_mode"@ {
        field.mode
    } else {
        None
    }
}

/// The last mode that a form names.
pub open spec fn mode_in<M>(fields: Seq<UploadField<M>>, default: M) -> M
    decreases fields.len(),
{
    if fields.len() == 0 {
        default
    } else {
        match mode_in_field(fields.last()) {
            Some(Some(mode)) => mode,
            _ => mode_in(fields.drop_last(), default),
        }
    }
}

/// Whether a form names a mode that there is not.
pub open spec fn has_bad_mode<M>(fields: Seq<UploadField<M>>) -> bool {
    exists|i: int| 0 <= i < fields.len() && mode_in_field(#[trigger] fields[i]) == Some(None::<M>)
}

/// The file and the mode that a form asks for. A mode that there is not, and a form without a
/// file or with an empty one, are refused.
pub fn collect_upload<M>(fields: Vec<UploadField<M>>, default: M) -> (upload: Result<
    Upload<M>,
    (u16, ErrorResponse),
>)
    ensures
        match upload {
            Ok(u) => !has_bad_mode(fields@) && data_in(fields@).len() > 0 && u.filename@
                == file_name_in(fields@) && u.data@ == data_in(fields@) && u.mode == mode_in(
                fields@,
                default,
            ),
            Err(answer) => if has_bad_mode(fields@) {
                crate::api::is_error(
                    answer,
                    crate::api::BAD_REQUEST,
                    "BAD_REQUEST"@,
                    "desensitize_mode 仅支持 off/low"@,
                )
            } else {
                data_in(fields@).len() == 0 && crate::api::is_error(
                    answer,
                    crate::api::BAD_REQUEST,
                    "BAD_REQUEST"@,
                    "上传文件为空"@,
                )
            },
        },
{
    let ghost all = fields@;
    let mut filename = "upload.pdf".to_owned();
    let mut data: Vec<u8> = Vec::new();
    let mut mode = default;
    for field in iter: fields
        invariant
            iter.seq() == all,
            filename@ == file_name_in(all.take(iter.index() as int)),
            data@ == data_in(all.take(iter.index() as int)),
            mode == mode_in(all.take(iter.index() as int), default),
            forall|k: int|
                0 <= k < iter.index() ==> mode_in_field(#[trigger] all[k]) != Some(None::<M>),
    {
        proof {
            let i = iter.index() as int;
            assert(all.take(i + 1).drop_last() == all.take(i));
            assert(all.take(i + 1).last() == all[i]);
            assert(field == all[i]);
        }
        match field.file_name {
            Some(name) => {
                filename = name;
                if let Some(content) = field.data {
                    data = content;
                }
            },
            None => {
                if same_text(field.name.as_str(), "desensitize_mode") {
                    if let Some(named) = field.mode {
                        match named {
                            Some(m) => {
                                mode = m;
                            },
                            None => {
                                assert(mode_in_field(all[iter.index() as int]) == Some(
                                    None::<M>,
                                ));
                                return Err(bad_request("desensitize_mode 仅支持 off/low"));
                            },
                        }
                    }
                }
            },
        }
    }
    assert(all.take(all.len() as int) == all);
    if data.len() == 0 {
        return Err(bad_request("上传文件为空"));
    }
    Ok(Upload { filename, data, mode })
}

// ── Laws ──

/// A form is read field by field. One more field that is a file gives the name, and its content if
/// that could be read; one more field for the mode gives the mode, if it names one; any other field
/// changes nothing.
pub proof fn a_form_is_read_field_by_field<M>(
    fields: Seq<UploadField<M>>,
    field: UploadField<M>,
    default: M,
)
    ensures
        file_name_in(Seq::<UploadField<M>>::empty()) == "upload.pdf"@,
        data_in(Seq::<UploadField<M>>::empty()).len() == 0,
        mode_in(Seq::<UploadField<M>>::empty(), default) == default,
        !has_bad_mode(Seq::<UploadField<M>>::empty()),
        field.file_name is None ==> file_name_in(fields.push(field)) == file_name_in(fields)
            && data_in(fields.push(field)) == data_in(fields),
        field.file_name matches Some(name) ==> {
            &&& file_name_in(fields.push(field)) == name@
            &&& mode_in(fields.push(field), default) == mode_in(fields, default)
            &&& has_bad_mode(fields.push(field)) == has_bad_mode(fields)
            &&& field.data is None ==> data_in(fields.push(field)) == data_in(fields)
            &&& field.data matches Some(data) ==> data_in(fields.push(field)) == data@
        },
        field.name@ != "desensitize_mode"@ || field.mode is None ==> mode_in(
            fields.push(field),
            default,
        ) == mode_in(fields, default) && has_bad_mode(fields.push(field)) == has_bad_mode(fields),
        field.file_name is None && field.name@ == "desensitize_mode"@ ==> {
            &&& field.mode == Some(None::<M>) ==> has_bad_mode(fields.push(field)) && mode_in(
                fields.push(field),
                default,
            ) == mode_in(fields, default)
            &&& field.mode is Some && field.mode->0 is Some ==> mode_in(fields.push(field), default)
                == field.mode->0->0 && has_bad_mode(fields.push(field)) == has_bad_mode(fields)
        },
{
    let all = fields.push(field);
    assert(all.drop_last() =~= fields);
    assert(all.last() == field);
    if has_bad_mode(fields) {
        let i = choose|i: int|
            0 <= i < fields.len() && mode_in_field(#[trigger] fields[i]) == Some(None::<M>);
        assert(mode_in_field(all[i]) == Some(None::<M>));
    }
    if mode_in_field(field) == Some(None::<M>) {
        assert(mode_in_field(all[fields.len() as int]) == Some(None::<M>));
    }
    if has_bad_mode(all) {
        let i = choose|i: int|
            0 <= i < all.len() && mode_in_field(#[trigger] all[i]) == Some(None::<M>);
        if i < fields.len() {
            assert(mode_in_field(fields[i]) == Some(None::<M>));
        }
    }
}

} // verus!
