pub mod anchors;
pub mod brackets;
pub mod commas;
pub mod comments;
pub mod comments_indentation;
pub mod document_markers;
pub mod empty_lines;
pub mod empty_values;
pub mod float_values;
pub mod hyphens;
pub mod indentation;
pub mod key_duplicates;
pub mod key_ordering;
pub mod line_length;
pub mod new_line_at_end;
pub mod new_lines;
pub mod octal_values;
pub mod trailing_spaces;
pub mod truthy;
pub mod quoted_strings;
pub mod rule_set;
